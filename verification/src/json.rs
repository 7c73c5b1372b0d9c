//! The JSON wire form of a rule, stated as spec functions over character
//! sequences, and the verified serializer that produces it. A rule is an
//! object whose members appear in field order, one per field that is set;
//! a field that is `None` contributes nothing.

use vstd::prelude::*;

use crate::rules::{RuleView, VpnKitPort, VpnKitProtocol};
use crate::text::chars_to_string;

verus! {

/// Characters the serializer writes behind a backslash inside a JSON
/// string: the quote, the backslash, and every control character.
pub open spec fn needs_escape(c: char) -> bool {
    c == '"' || c == '\\' || (c as int) < 0x20
}

/// The lowercase hexadecimal digit character for `d % 16`.
pub open spec fn spec_hex_digit(d: nat) -> char {
    if d % 16 < 10 {
        (((d % 16) + 0x30) as u8) as char
    } else {
        (((d % 16) + 0x57) as u8) as char
    }
}

/// Wire form of one character inside a JSON string: the short escapes for
/// the common control characters, `\u00xx` for the rest, the character
/// itself otherwise.
pub open spec fn json_escape_char(c: char) -> Seq<char> {
    if c == '"' {
        seq!['\\', '"']
    } else if c == '\\' {
        seq!['\\', '\\']
    } else if c == '\n' {
        seq!['\\', 'n']
    } else if c == '\r' {
        seq!['\\', 'r']
    } else if c == '\t' {
        seq!['\\', 't']
    } else if c == '\u{0008}' {
        seq!['\\', 'b']
    } else if c == '\u{000C}' {
        seq!['\\', 'f']
    } else if (c as int) < 0x20 {
        seq!['\\', 'u', '0', '0', spec_hex_digit((c as int / 16) as nat), spec_hex_digit(
            (c as int % 16) as nat,
        )]
    } else {
        seq![c]
    }
}

/// Wire form of the contents of a JSON string.
pub open spec fn json_escape(s: Seq<char>) -> Seq<char>
    decreases s.len(),
{
    if s.len() == 0 {
        Seq::empty()
    } else {
        json_escape_char(s[0]) + json_escape(s.skip(1))
    }
}

/// A JSON string: quote, escaped contents, quote.
pub open spec fn spec_string_json(s: Seq<char>) -> Seq<char> {
    seq!['"'] + json_escape(s) + seq!['"']
}

/// The decimal digit character for `d % 10`.
pub open spec fn spec_digit_char(d: nat) -> char {
    (((d % 10) + 0x30) as u8) as char
}

/// Decimal notation of a number, most significant digit first.
pub open spec fn spec_dec(n: nat) -> Seq<char>
    decreases n,
{
    if n < 10 {
        seq![spec_digit_char(n)]
    } else {
        spec_dec(n / 10) + seq![spec_digit_char(n % 10)]
    }
}

/// Lowercase name of a protocol, as it stands on the wire.
pub open spec fn spec_proto_chars(p: VpnKitProtocol) -> Seq<char> {
    match p {
        VpnKitProtocol::TCP => seq!['t', 'c', 'p'],
        VpnKitProtocol::UDP => seq!['u', 'd', 'p'],
        VpnKitProtocol::UNIX => seq!['u', 'n', 'i', 'x'],
    }
}

pub open spec fn key_in_port() -> Seq<char> {
    seq!['i', 'n', '_', 'p', 'o', 'r', 't']
}

pub open spec fn key_out_port() -> Seq<char> {
    seq!['o', 'u', 't', '_', 'p', 'o', 'r', 't']
}

pub open spec fn key_proto() -> Seq<char> {
    seq!['p', 'r', 'o', 't', 'o']
}

pub open spec fn key_in_ip() -> Seq<char> {
    seq!['i', 'n', '_', 'i', 'p']
}

pub open spec fn key_out_ip() -> Seq<char> {
    seq!['o', 'u', 't', '_', 'i', 'p']
}

pub open spec fn key_in_path() -> Seq<char> {
    seq!['i', 'n', '_', 'p', 'a', 't', 'h']
}

pub open spec fn key_out_path() -> Seq<char> {
    seq!['o', 'u', 't', '_', 'p', 'a', 't', 'h']
}

pub open spec fn key_message() -> Seq<char> {
    seq!['m', 'e', 's', 's', 'a', 'g', 'e']
}

/// A decimal digit character.
pub open spec fn is_digit(c: char) -> bool {
    '0' <= c && c <= '9'
}

/// Numeric value of a digit character.
pub open spec fn digit_val(c: char) -> nat {
    ((c as int) - ('0' as int)) as nat
}

/// Value of a run of digit characters, most significant first.
pub open spec fn digits_val(ds: Seq<char>) -> nat
    decreases ds.len(),
{
    if ds.len() == 0 {
        0
    } else {
        digits_val(ds.drop_last()) * 10 + digit_val(ds.last())
    }
}

/// One object member: quoted key, colon, value.
pub open spec fn spec_member(key: Seq<char>, val: Seq<char>) -> Seq<char> {
    spec_string_json(key) + seq![':'] + val
}

/// The member a port field contributes: nothing when absent.
pub open spec fn port_segments(key: Seq<char>, p: Option<usize>) -> Seq<Seq<char>> {
    match p {
        Some(n) => seq![spec_member(key, spec_dec(n as nat))],
        None => Seq::empty(),
    }
}

/// The member a string field contributes: nothing when absent.
pub open spec fn str_segments(key: Seq<char>, s: Option<Seq<char>>) -> Seq<Seq<char>> {
    match s {
        Some(t) => seq![spec_member(key, spec_string_json(t))],
        None => Seq::empty(),
    }
}

/// The member the protocol field contributes: nothing when absent.
pub open spec fn proto_segments(p: Option<VpnKitProtocol>) -> Seq<Seq<char>> {
    match p {
        Some(q) => seq![spec_member(key_proto(), spec_string_json(spec_proto_chars(q)))],
        None => Seq::empty(),
    }
}

/// The members of a rule's JSON object, in field order, one per set field.
pub open spec fn rule_segments(v: RuleView) -> Seq<Seq<char>> {
    port_segments(key_in_port(), v.in_port) + port_segments(key_out_port(), v.out_port)
        + proto_segments(v.proto) + str_segments(key_in_ip(), v.in_ip) + str_segments(
        key_out_ip(),
        v.out_ip,
    ) + str_segments(key_in_path(), v.in_path) + str_segments(key_out_path(), v.out_path)
}

/// The members joined with commas.
pub open spec fn spec_join(segs: Seq<Seq<char>>) -> Seq<char>
    decreases segs.len(),
{
    if segs.len() == 0 {
        Seq::empty()
    } else if segs.len() == 1 {
        segs[0]
    } else {
        segs[0] + seq![','] + spec_join(segs.skip(1))
    }
}

/// The full JSON form of a rule.
pub open spec fn spec_rule_json(v: RuleView) -> Seq<char> {
    seq!['{'] + spec_join(rule_segments(v)) + seq!['}']
}

/// Escaping a string one character longer appends that character's wire form.
pub proof fn lemma_escape_push(s: Seq<char>, c: char)
    ensures
        json_escape(s.push(c)) == json_escape(s) + json_escape_char(c),
    decreases s.len(),
{
    if s.len() == 0 {
        reveal_with_fuel(json_escape, 2);
        assert(s.push(c).skip(1) =~= s);
        assert(s.push(c)[0] == c);
        assert(json_escape(s.push(c)) =~= json_escape(s) + json_escape_char(c));
    } else {
        assert(s.push(c).skip(1) =~= s.skip(1).push(c));
        lemma_escape_push(s.skip(1), c);
        assert(json_escape(s.push(c)) =~= json_escape(s) + json_escape_char(c));
    }
}

/// A string of characters that take no backslash is its own wire form.
pub proof fn lemma_escape_plain(s: Seq<char>)
    requires
        forall|i: int| 0 <= i < s.len() ==> !needs_escape(s[i]),
    ensures
        json_escape(s) == s,
    decreases s.len(),
{
    if s.len() == 0 {
        assert(json_escape(s) =~= s);
    } else {
        lemma_escape_plain(s.skip(1));
        assert(json_escape(s) =~= s);
    }
}

/// The lowercase hexadecimal digit character for `d`.
fn hex_digit_char(d: usize) -> (r: char)
    requires
        d < 16,
    ensures
        r == spec_hex_digit(d as nat),
{
    if d < 10 {
        (0x30 + d as u8) as char
    } else {
        (0x57 + d as u8) as char
    }
}

/// Appends the wire form of one string character.
fn push_escaped_char(out: &mut Vec<char>, c: char)
    ensures
        final(out)@ == old(out)@ + json_escape_char(c),
{
    if c == '"' {
        out.push('\\');
        out.push('"');
    } else if c == '\\' {
        out.push('\\');
        out.push('\\');
    } else if c == '\n' {
        out.push('\\');
        out.push('n');
    } else if c == '\r' {
        out.push('\\');
        out.push('r');
    } else if c == '\t' {
        out.push('\\');
        out.push('t');
    } else if c == '\u{0008}' {
        out.push('\\');
        out.push('b');
    } else if c == '\u{000C}' {
        out.push('\\');
        out.push('f');
    } else {
        let cv = c as u32;
        if cv < 0x20 {
            out.push('\\');
            out.push('u');
            out.push('0');
            out.push('0');
            out.push(hex_digit_char((cv / 16) as usize));
            out.push(hex_digit_char((cv % 16) as usize));
        } else {
            out.push(c);
        }
    }
    proof {
        assert(out@ =~= old(out)@ + json_escape_char(c));
    }
}

/// Appends a JSON string: quote, escaped contents, quote.
fn push_string_json(out: &mut Vec<char>, s: &str)
    ensures
        final(out)@ == old(out)@ + spec_string_json(s@),
{
    out.push('"');
    let n = s.unicode_len();
    let mut i: usize = 0;
    while i < n
        invariant
            n == s@.len(),
            0 <= i <= n,
            out@ == old(out)@ + seq!['"'] + json_escape(s@.subrange(0, i as int)),
        decreases n - i,
    {
        let c = s.get_char(i);
        push_escaped_char(out, c);
        proof {
            assert(s@.subrange(0, i + 1) =~= s@.subrange(0, i as int).push(s@[i as int]));
            lemma_escape_push(s@.subrange(0, i as int), s@[i as int]);
        }
        i = i + 1;
    }
    out.push('"');
    proof {
        assert(s@.subrange(0, s@.len() as int) =~= s@);
        assert(out@ =~= old(out)@ + spec_string_json(s@));
    }
}

/// Appends the decimal notation of a number.
fn push_dec(out: &mut Vec<char>, n: usize)
    ensures
        final(out)@ == old(out)@ + spec_dec(n as nat),
    decreases n,
{
    if n >= 10 {
        push_dec(out, n / 10);
        let d = n % 10;
        out.push((0x30 + d as u8) as char);
        proof {
            assert(out@ =~= old(out)@ + spec_dec(n as nat));
        }
    } else {
        out.push((0x30 + n as u8) as char);
        proof {
            assert(out@ =~= old(out)@ + spec_dec(n as nat));
        }
    }
}

/// Joining one more member appends a comma unless it is the first.
pub proof fn lemma_join_push(segs: Seq<Seq<char>>, x: Seq<char>)
    ensures
        segs.len() == 0 ==> spec_join(segs.push(x)) == x,
        segs.len() > 0 ==> spec_join(segs.push(x)) == spec_join(segs) + seq![','] + x,
    decreases segs.len(),
{
    if segs.len() == 0 {
        assert(segs.push(x)[0] =~= x);
        assert(spec_join(segs.push(x)) =~= x);
    } else if segs.len() == 1 {
        reveal_with_fuel(spec_join, 3);
        assert(segs.push(x).skip(1) =~= seq![x]);
        assert(spec_join(segs.push(x)) =~= segs[0] + seq![','] + x);
        assert(spec_join(segs) + seq![','] + x =~= segs[0] + seq![','] + x);
    } else {
        assert(segs.push(x).skip(1) =~= segs.skip(1).push(x));
        lemma_join_push(segs.skip(1), x);
        assert(spec_join(segs.push(x)) =~= spec_join(segs) + seq![','] + x);
    }
}

/// Appends one member to an object under construction: a comma first
/// unless it is the object's first member.
fn append_segment(out: &mut Vec<char>, seg: &mut Vec<char>, first: bool, Ghost(segs): Ghost<
    Seq<Seq<char>>,
>)
    requires
        first == (segs.len() == 0),
        old(out)@ == seq!['{'] + spec_join(segs),
    ensures
        final(out)@ == seq!['{'] + spec_join(segs.push(old(seg)@)),
{
    proof {
        lemma_join_push(segs, seg@);
    }
    if !first {
        out.push(',');
    }
    out.append(seg);
    proof {
        assert(out@ =~= seq!['{'] + spec_join(segs.push(old(seg)@)));
    }
}

/// Appends one port member (`"key":n`) to an object under construction.
fn push_port_member(out: &mut Vec<char>, first: bool, key: &str, n: usize, Ghost(segs): Ghost<
    Seq<Seq<char>>,
>)
    requires
        first == (segs.len() == 0),
        old(out)@ == seq!['{'] + spec_join(segs),
        json_escape(key@) == key@,
    ensures
        final(out)@ == seq!['{'] + spec_join(segs.push(spec_member(key@, spec_dec(n as nat)))),
{
    let mut seg: Vec<char> = Vec::new();
    push_string_json(&mut seg, key);
    seg.push(':');
    push_dec(&mut seg, n);
    proof {
        assert(seg@ =~= spec_member(key@, spec_dec(n as nat)));
    }
    append_segment(out, &mut seg, first, Ghost(segs));
}

/// Appends one string member (`"key":"val"`) to an object under
/// construction.
fn push_str_member(out: &mut Vec<char>, first: bool, key: &str, val: &str, Ghost(segs): Ghost<
    Seq<Seq<char>>,
>)
    requires
        first == (segs.len() == 0),
        old(out)@ == seq!['{'] + spec_join(segs),
        json_escape(key@) == key@,
    ensures
        final(out)@ == seq!['{'] + spec_join(
            segs.push(spec_member(key@, spec_string_json(val@))),
        ),
{
    let mut seg: Vec<char> = Vec::new();
    push_string_json(&mut seg, key);
    seg.push(':');
    push_string_json(&mut seg, val);
    proof {
        assert(seg@ =~= spec_member(key@, spec_string_json(val@)));
    }
    append_segment(out, &mut seg, first, Ghost(segs));
}

impl VpnKitPort {
    /// Serializes the rule as its JSON object: members in field order, one
    /// per field that is set; absent fields are omitted entirely, never
    /// written as `null`.
    #[verifier::rlimit(100)]
    #[verifier::spinoff_prover]
    pub fn to_json(&self) -> (r: String)
        ensures
            r@ == spec_rule_json(self@),
    {
        let ghost v = self@;
        let mut out: Vec<char> = Vec::new();
        out.push('{');
        let mut first = true;
        let ghost mut segs: Seq<Seq<char>> = Seq::empty();
        proof {
            assert(out@ =~= seq!['{'] + spec_join(segs));
        }

        if let Some(n) = self.in_port {
            proof {
                reveal_strlit("in_port");
                assert("in_port"@ =~= key_in_port());
                lemma_escape_plain(key_in_port());
            }
            push_port_member(&mut out, first, "in_port", n, Ghost(segs));
            first = false;
            proof {
                segs = segs.push(spec_member(key_in_port(), spec_dec(n as nat)));
            }
        }
        proof {
            assert(segs =~= port_segments(key_in_port(), v.in_port));
            assert(first == (segs.len() == 0));
        }
        if let Some(n) = self.out_port {
            proof {
                reveal_strlit("out_port");
                assert("out_port"@ =~= key_out_port());
                lemma_escape_plain(key_out_port());
            }
            push_port_member(&mut out, first, "out_port", n, Ghost(segs));
            first = false;
            proof {
                segs = segs.push(spec_member(key_out_port(), spec_dec(n as nat)));
            }
        }
        proof {
            assert(segs =~= port_segments(key_in_port(), v.in_port) + port_segments(
                key_out_port(),
                v.out_port,
            ));
            assert(first == (segs.len() == 0));
        }
        if let Some(p) = self.proto {
            proof {
                reveal_strlit("proto");
                reveal_strlit("tcp");
                reveal_strlit("udp");
                reveal_strlit("unix");
                assert("proto"@ =~= key_proto());
                lemma_escape_plain(key_proto());
                match p {
                    VpnKitProtocol::TCP => {
                        assert("tcp"@ =~= spec_proto_chars(p));
                    },
                    VpnKitProtocol::UDP => {
                        assert("udp"@ =~= spec_proto_chars(p));
                    },
                    VpnKitProtocol::UNIX => {
                        assert("unix"@ =~= spec_proto_chars(p));
                    },
                }
            }
            match p {
                VpnKitProtocol::TCP => push_str_member(&mut out, first, "proto", "tcp", Ghost(segs)),
                VpnKitProtocol::UDP => push_str_member(&mut out, first, "proto", "udp", Ghost(segs)),
                VpnKitProtocol::UNIX => push_str_member(
                    &mut out,
                    first,
                    "proto",
                    "unix",
                    Ghost(segs),
                ),
            }
            first = false;
            proof {
                segs = segs.push(spec_member(key_proto(), spec_string_json(spec_proto_chars(p))));
            }
        }
        proof {
            assert(segs =~= port_segments(key_in_port(), v.in_port) + port_segments(
                key_out_port(),
                v.out_port,
            ) + proto_segments(v.proto));
            assert(first == (segs.len() == 0));
        }
        if let Some(s) = &self.in_ip {
            proof {
                reveal_strlit("in_ip");
                assert("in_ip"@ =~= key_in_ip());
                lemma_escape_plain(key_in_ip());
            }
            push_str_member(&mut out, first, "in_ip", s.as_str(), Ghost(segs));
            first = false;
            proof {
                segs = segs.push(spec_member(key_in_ip(), spec_string_json(s@)));
            }
        }
        proof {
            assert(segs =~= port_segments(key_in_port(), v.in_port) + port_segments(
                key_out_port(),
                v.out_port,
            ) + proto_segments(v.proto) + str_segments(key_in_ip(), v.in_ip));
            assert(first == (segs.len() == 0));
        }
        if let Some(s) = &self.out_ip {
            proof {
                reveal_strlit("out_ip");
                assert("out_ip"@ =~= key_out_ip());
                lemma_escape_plain(key_out_ip());
            }
            push_str_member(&mut out, first, "out_ip", s.as_str(), Ghost(segs));
            first = false;
            proof {
                segs = segs.push(spec_member(key_out_ip(), spec_string_json(s@)));
            }
        }
        proof {
            assert(segs =~= port_segments(key_in_port(), v.in_port) + port_segments(
                key_out_port(),
                v.out_port,
            ) + proto_segments(v.proto) + str_segments(key_in_ip(), v.in_ip) + str_segments(
                key_out_ip(),
                v.out_ip,
            ));
            assert(first == (segs.len() == 0));
        }
        if let Some(s) = &self.in_path {
            proof {
                reveal_strlit("in_path");
                assert("in_path"@ =~= key_in_path());
                lemma_escape_plain(key_in_path());
            }
            push_str_member(&mut out, first, "in_path", s.as_str(), Ghost(segs));
            first = false;
            proof {
                segs = segs.push(spec_member(key_in_path(), spec_string_json(s@)));
            }
        }
        proof {
            assert(segs =~= port_segments(key_in_port(), v.in_port) + port_segments(
                key_out_port(),
                v.out_port,
            ) + proto_segments(v.proto) + str_segments(key_in_ip(), v.in_ip) + str_segments(
                key_out_ip(),
                v.out_ip,
            ) + str_segments(key_in_path(), v.in_path));
            assert(first == (segs.len() == 0));
        }
        if let Some(s) = &self.out_path {
            proof {
                reveal_strlit("out_path");
                assert("out_path"@ =~= key_out_path());
                lemma_escape_plain(key_out_path());
            }
            push_str_member(&mut out, first, "out_path", s.as_str(), Ghost(segs));
            proof {
                segs = segs.push(spec_member(key_out_path(), spec_string_json(s@)));
            }
        }
        proof {
            assert(segs =~= rule_segments(v));
        }
        out.push('}');
        proof {
            assert(out@ =~= spec_rule_json(v));
        }
        chars_to_string(out)
    }
}

} // verus!

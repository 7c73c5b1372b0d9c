//! The parsing side of the wire format: JSON texts the daemon sends back
//! (a rule object, an array of rule objects, an error payload) read into the
//! crate's records. The grammar is stated as spec functions over character
//! sequences and positions; each executable parser returns exactly what the
//! spec grammar yields.
//!
//! A rule object's members may come in any order; a key this format does
//! not know is skipped with its value, as a lenient reader does; when a key
//! repeats, the last value stands. Whitespace may stand between tokens, and
//! a known key with a `null` value leaves the field unset.

use vstd::prelude::*;

use crate::json::{
    digits_val, is_digit, json_escape, key_in_ip, key_in_path, key_in_port, key_message,
    key_out_ip, key_out_path, key_out_port, key_proto, spec_proto_chars,
};
use crate::rules::{empty_rule_view, RuleView, VpnKitPort, VpnKitProtocol};
use crate::text::{chars_to_string, str_to_chars};

verus! {

/// JSON insignificant whitespace.
pub open spec fn is_ws(c: char) -> bool {
    c == ' ' || c == '\t' || c == '\n' || c == '\r'
}

/// First position at or after `i` holding no whitespace.
pub open spec fn skip_ws(s: Seq<char>, i: int) -> int
    decreases s.len() - i,
{
    if 0 <= i && i < s.len() && is_ws(s[i]) {
        skip_ws(s, i + 1)
    } else {
        i
    }
}

/// Value of a hexadecimal digit character, either case.
pub open spec fn hex_val(c: char) -> Option<nat> {
    if '0' <= c && c <= '9' {
        Some(((c as int) - 0x30) as nat)
    } else if 'a' <= c && c <= 'f' {
        Some(((c as int) - 0x57) as nat)
    } else if 'A' <= c && c <= 'F' {
        Some(((c as int) - 0x37) as nat)
    } else {
        None
    }
}

/// The character a `\uXXXX` escape with four hex digits stands for;
/// `None` for a surrogate code, which denotes no character of its own.
pub open spec fn parse_hex_escape(s: Seq<char>, i: int) -> Option<(char, int)> {
    if 0 <= i && i + 4 <= s.len() {
        match (hex_val(s[i]), hex_val(s[i + 1]), hex_val(s[i + 2]), hex_val(s[i + 3])) {
            (Some(h1), Some(h2), Some(h3), Some(h4)) => {
                let code = h1 * 0x1000 + h2 * 0x100 + h3 * 0x10 + h4;
                if 0xD800 <= code <= 0xDFFF {
                    None
                } else {
                    Some(((code as u32) as char, i + 4))
                }
            },
            _ => None,
        }
    } else {
        None
    }
}

/// The character an escape code stands for, if the code is accepted.
pub open spec fn unescape_char(c: char) -> Option<char> {
    if c == '"' {
        Some('"')
    } else if c == '\\' {
        Some('\\')
    } else if c == '/' {
        Some('/')
    } else if c == 'n' {
        Some('\n')
    } else if c == 'r' {
        Some('\r')
    } else if c == 't' {
        Some('\t')
    } else if c == 'b' {
        Some('\u{0008}')
    } else if c == 'f' {
        Some('\u{000C}')
    } else {
        None
    }
}

/// Contents of a JSON string read from the position after its opening
/// quote: the decoded characters and the position after the closing quote.
pub open spec fn parse_str_body(s: Seq<char>, i: int) -> Option<(Seq<char>, int)>
    decreases s.len() - i,
{
    if 0 <= i && i < s.len() {
        let c = s[i];
        if c == '"' {
            Some((Seq::empty(), i + 1))
        } else if c == '\\' {
            if i + 1 < s.len() {
                if s[i + 1] == 'u' {
                    match parse_hex_escape(s, i + 2) {
                        Some((u, j1)) => match parse_str_body(s, j1) {
                            Some((rest, j)) => Some((seq![u] + rest, j)),
                            None => None,
                        },
                        None => None,
                    }
                } else {
                    match unescape_char(s[i + 1]) {
                        Some(u) => match parse_str_body(s, i + 2) {
                            Some((rest, j)) => Some((seq![u] + rest, j)),
                            None => None,
                        },
                        None => None,
                    }
                }
            } else {
                None
            }
        } else {
            match parse_str_body(s, i + 1) {
                Some((rest, j)) => Some((seq![c] + rest, j)),
                None => None,
            }
        }
    } else {
        None
    }
}

/// A JSON string starting at `i`: its decoded contents and the position
/// after the closing quote.
pub open spec fn parse_string(s: Seq<char>, i: int) -> Option<(Seq<char>, int)> {
    if 0 <= i && i < s.len() && s[i] == '"' {
        parse_str_body(s, i + 1)
    } else {
        None
    }
}

/// End of the run of decimal digits starting at `i`.
pub open spec fn digit_run_end(s: Seq<char>, i: int) -> int
    decreases s.len() - i,
{
    if 0 <= i && i < s.len() && is_digit(s[i]) {
        digit_run_end(s, i + 1)
    } else {
        i
    }
}

/// A non-empty run of digits without a leading zero starting at `i`: its
/// value and the position after the run. The value is unbounded here;
/// whether it fits the port field is decided where the field is set.
pub open spec fn parse_number(s: Seq<char>, i: int) -> Option<(nat, int)> {
    let j = digit_run_end(s, i);
    if 0 <= i && j > i && !(j - i > 1 && s[i] == '0') {
        Some((digits_val(s.subrange(i, j)), j))
    } else {
        None
    }
}

/// The literal `null` starting at `i`: the position after it.
pub open spec fn parse_null(s: Seq<char>, i: int) -> Option<int> {
    if 0 <= i && i + 4 <= s.len() && s[i] == 'n' && s[i + 1] == 'u' && s[i + 2] == 'l' && s[i + 3]
        == 'l' {
        Some(i + 4)
    } else {
        None
    }
}

/// The literal `true` starting at `i`: the position after it.
pub open spec fn parse_true(s: Seq<char>, i: int) -> Option<int> {
    if 0 <= i && i + 4 <= s.len() && s[i] == 't' && s[i + 1] == 'r' && s[i + 2] == 'u' && s[i + 3]
        == 'e' {
        Some(i + 4)
    } else {
        None
    }
}

/// The literal `false` starting at `i`: the position after it.
pub open spec fn parse_false(s: Seq<char>, i: int) -> Option<int> {
    if 0 <= i && i + 5 <= s.len() && s[i] == 'f' && s[i + 1] == 'a' && s[i + 2] == 'l' && s[i + 3]
        == 's' && s[i + 4] == 'e' {
        Some(i + 5)
    } else {
        None
    }
}

/// A character that can stand in a JSON number.
pub open spec fn is_num_char(c: char) -> bool {
    is_digit(c) || c == '-' || c == '+' || c == '.' || c == 'e' || c == 'E'
}

/// End of the run of number characters starting at `i`.
pub open spec fn num_run_end(s: Seq<char>, i: int) -> int
    decreases s.len() - i,
{
    if 0 <= i && i < s.len() && is_num_char(s[i]) {
        num_run_end(s, i + 1)
    } else {
        i
    }
}

/// Position after one JSON value starting at `i`, of whatever shape: the
/// value of a member this format does not know is walked over, not read.
pub open spec fn skip_value(s: Seq<char>, i: int) -> Option<int>
    decreases s.len() - i, 0int,
{
    if 0 <= i && i < s.len() {
        let c = s[i];
        if c == '"' {
            match parse_string(s, i) {
                Some((t, j)) => Some(j),
                None => None,
            }
        } else if is_num_char(c) {
            Some(num_run_end(s, i))
        } else if c == 'n' {
            parse_null(s, i)
        } else if c == 't' {
            parse_true(s, i)
        } else if c == 'f' {
            parse_false(s, i)
        } else if c == '{' {
            let j = skip_ws(s, i + 1);
            if j < s.len() && s[j] == '}' {
                Some(j + 1)
            } else if i < j && j <= s.len() {
                skip_members(s, j)
            } else {
                None
            }
        } else if c == '[' {
            let j = skip_ws(s, i + 1);
            if j < s.len() && s[j] == ']' {
                Some(j + 1)
            } else if i < j && j <= s.len() {
                skip_elements(s, j)
            } else {
                None
            }
        } else {
            None
        }
    } else {
        None
    }
}

/// Position after the members of an object being walked over, read from
/// the position of a key onward up to and past the closing brace.
pub open spec fn skip_members(s: Seq<char>, i: int) -> Option<int>
    decreases s.len() - i, 1int,
{
    match parse_string(s, i) {
        Some((k, j)) => {
            let j1 = skip_ws(s, j);
            if j1 < s.len() && s[j1] == ':' {
                let j2 = skip_ws(s, j1 + 1);
                if i < j2 && j2 <= s.len() {
                    match skip_value(s, j2) {
                        Some(j3) => {
                            let j4 = skip_ws(s, j3);
                            if j4 < s.len() && s[j4] == '}' {
                                Some(j4 + 1)
                            } else if j4 < s.len() && s[j4] == ',' {
                                let j5 = skip_ws(s, j4 + 1);
                                if i < j5 && j5 <= s.len() {
                                    skip_members(s, j5)
                                } else {
                                    None
                                }
                            } else {
                                None
                            }
                        },
                        None => None,
                    }
                } else {
                    None
                }
            } else {
                None
            }
        },
        None => None,
    }
}

/// Position after the elements of an array being walked over, read from
/// the position of an element onward up to and past the closing bracket.
pub open spec fn skip_elements(s: Seq<char>, i: int) -> Option<int>
    decreases s.len() - i, 1int,
{
    if 0 <= i && i <= s.len() {
        match skip_value(s, i) {
            Some(j) => {
                let j1 = skip_ws(s, j);
                if j1 < s.len() && s[j1] == ']' {
                    Some(j1 + 1)
                } else if j1 < s.len() && s[j1] == ',' {
                    let j2 = skip_ws(s, j1 + 1);
                    if i < j2 && j2 <= s.len() {
                        skip_elements(s, j2)
                    } else {
                        None
                    }
                } else {
                    None
                }
            },
            None => None,
        }
    } else {
        None
    }
}

/// Field order of a rule's keys; 7 for a key this format does not know.
pub open spec fn key_rank(k: Seq<char>) -> int {
    if k == key_in_port() {
        0
    } else if k == key_out_port() {
        1
    } else if k == key_proto() {
        2
    } else if k == key_in_ip() {
        3
    } else if k == key_out_ip() {
        4
    } else if k == key_in_path() {
        5
    } else if k == key_out_path() {
        6
    } else {
        7
    }
}

/// The protocol a wire name stands for; case-sensitive.
pub open spec fn proto_of_chars(t: Seq<char>) -> Option<VpnKitProtocol> {
    if t == spec_proto_chars(VpnKitProtocol::TCP) {
        Some(VpnKitProtocol::TCP)
    } else if t == spec_proto_chars(VpnKitProtocol::UDP) {
        Some(VpnKitProtocol::UDP)
    } else if t == spec_proto_chars(VpnKitProtocol::UNIX) {
        Some(VpnKitProtocol::UNIX)
    } else {
        None
    }
}

/// The value of the field with the given rank, read at `i` and set in
/// `acc`. A `null` value is accepted and leaves the field unset. A port
/// value must fit the port field's machine word.
pub open spec fn parse_value_for(s: Seq<char>, i: int, rank: int, acc: RuleView) -> Option<
    (RuleView, int),
> {
    match parse_null(s, i) {
        Some(j) => Some((acc, j)),
        None => if rank == 0 || rank == 1 {
            match parse_number(s, i) {
                Some((n, j)) => if n <= usize::MAX {
                    if rank == 0 {
                        Some((RuleView { in_port: Some(n as usize), ..acc }, j))
                    } else {
                        Some((RuleView { out_port: Some(n as usize), ..acc }, j))
                    }
                } else {
                    None
                },
                None => None,
            }
        } else if rank == 2 {
            match parse_string(s, i) {
                Some((t, j)) => match proto_of_chars(t) {
                    Some(p) => Some((RuleView { proto: Some(p), ..acc }, j)),
                    None => None,
                },
                None => None,
            }
        } else if rank == 3 {
            match parse_string(s, i) {
                Some((t, j)) => Some((RuleView { in_ip: Some(t), ..acc }, j)),
                None => None,
            }
        } else if rank == 4 {
            match parse_string(s, i) {
                Some((t, j)) => Some((RuleView { out_ip: Some(t), ..acc }, j)),
                None => None,
            }
        } else if rank == 5 {
            match parse_string(s, i) {
                Some((t, j)) => Some((RuleView { in_path: Some(t), ..acc }, j)),
                None => None,
            }
        } else if rank == 6 {
            match parse_string(s, i) {
                Some((t, j)) => Some((RuleView { out_path: Some(t), ..acc }, j)),
                None => None,
            }
        } else {
            None
        },
    }
}

/// The members of a rule object from the position of a key onward: keys
/// in any order, `:` and a value after each, `,` between members, `}`
/// closing the object. A known key sets its field (the last value stands
/// when a key repeats); an unknown key is skipped with its value. Yields
/// the accumulated rule and the position after the `}`.
pub open spec fn parse_fields(s: Seq<char>, i: int, acc: RuleView) -> Option<(RuleView, int)>
    decreases s.len() - i,
{
    match parse_string(s, i) {
        Some((k, j)) => {
            let r = key_rank(k);
            let j1 = skip_ws(s, j);
            if j1 < s.len() && s[j1] == ':' {
                let j2 = skip_ws(s, j1 + 1);
                let step = if r <= 6 {
                    parse_value_for(s, j2, r, acc)
                } else {
                    match skip_value(s, j2) {
                        Some(j3) => Some((acc, j3)),
                        None => None,
                    }
                };
                match step {
                    Some((acc2, j3)) => {
                        let j4 = skip_ws(s, j3);
                        if j4 < s.len() && s[j4] == '}' {
                            Some((acc2, j4 + 1))
                        } else if j4 < s.len() && s[j4] == ',' {
                            let j5 = skip_ws(s, j4 + 1);
                            if i < j5 && j5 <= s.len() {
                                parse_fields(s, j5, acc2)
                            } else {
                                None
                            }
                        } else {
                            None
                        }
                    },
                    None => None,
                }
            } else {
                None
            }
        },
        None => None,
    }
}

/// A rule object starting at or after `i` (leading whitespace allowed):
/// the rule it denotes and the position after its closing `}`.
pub open spec fn parse_rule_at(s: Seq<char>, i: int) -> Option<(RuleView, int)> {
    let i1 = skip_ws(s, i);
    if i1 < s.len() && s[i1] == '{' {
        let i2 = skip_ws(s, i1 + 1);
        if i2 < s.len() && s[i2] == '}' {
            Some((empty_rule_view(), i2 + 1))
        } else {
            parse_fields(s, i2, empty_rule_view())
        }
    } else {
        None
    }
}

/// A whole text holding exactly one rule object, whitespace around it.
pub open spec fn spec_parse_rule(s: Seq<char>) -> Option<RuleView> {
    match parse_rule_at(s, 0) {
        Some((v, j)) => if skip_ws(s, j) == s.len() {
            Some(v)
        } else {
            None
        },
        None => None,
    }
}

/// The remainder of a rule array after one parsed element: `,` and a
/// further rule, repeated, until the closing `]`.
pub open spec fn parse_rules_more(s: Seq<char>, i: int, acc: Seq<RuleView>) -> Option<
    (Seq<RuleView>, int),
>
    decreases s.len() - i,
{
    if 0 <= i <= s.len() {
        let j = skip_ws(s, i);
        if j < s.len() && s[j] == ']' {
            Some((acc, j + 1))
        } else if j < s.len() && s[j] == ',' {
            match parse_rule_at(s, j + 1) {
                Some((v, k)) => if i < k <= s.len() {
                    parse_rules_more(s, k, acc.push(v))
                } else {
                    None
                },
                None => None,
            }
        } else {
            None
        }
    } else {
        None
    }
}

/// A whole text holding a JSON array of rule objects, whitespace allowed.
pub open spec fn spec_parse_rule_list(s: Seq<char>) -> Option<Seq<RuleView>> {
    let i = skip_ws(s, 0);
    if i < s.len() && s[i] == '[' {
        let j = skip_ws(s, i + 1);
        if j < s.len() && s[j] == ']' {
            if skip_ws(s, j + 1) == s.len() {
                Some(Seq::empty())
            } else {
                None
            }
        } else {
            match parse_rule_at(s, i + 1) {
                Some((v, k)) => match parse_rules_more(s, k, seq![v]) {
                    Some((vs, m)) => if skip_ws(s, m) == s.len() {
                        Some(vs)
                    } else {
                        None
                    },
                    None => None,
                },
                None => None,
            }
        }
    } else {
        None
    }
}

/// The members of the daemon's error payload from the position of a key
/// onward: the `"message"` member's string is kept (the last one when the
/// key repeats), every other member is skipped. Yields the message found,
/// if any, and the position after the closing brace.
pub open spec fn parse_msg_fields(s: Seq<char>, i: int, found: Option<Seq<char>>) -> Option<
    (Option<Seq<char>>, int),
>
    decreases s.len() - i,
{
    match parse_string(s, i) {
        Some((k, j)) => {
            let j1 = skip_ws(s, j);
            if j1 < s.len() && s[j1] == ':' {
                let j2 = skip_ws(s, j1 + 1);
                let step = if k == key_message() {
                    match parse_string(s, j2) {
                        Some((m, j3)) => Some((Some(m), j3)),
                        None => None,
                    }
                } else {
                    match skip_value(s, j2) {
                        Some(j3) => Some((found, j3)),
                        None => None,
                    }
                };
                match step {
                    Some((found2, j3)) => {
                        let j4 = skip_ws(s, j3);
                        if j4 < s.len() && s[j4] == '}' {
                            Some((found2, j4 + 1))
                        } else if j4 < s.len() && s[j4] == ',' {
                            let j5 = skip_ws(s, j4 + 1);
                            if i < j5 && j5 <= s.len() {
                                parse_msg_fields(s, j5, found2)
                            } else {
                                None
                            }
                        } else {
                            None
                        }
                    },
                    None => None,
                }
            } else {
                None
            }
        },
        None => None,
    }
}

/// A whole text holding the daemon's error payload: an object with a
/// `"message"` member whose value is a string; other members may stand
/// beside it and are ignored.
pub open spec fn spec_parse_error_msg(s: Seq<char>) -> Option<Seq<char>> {
    let i1 = skip_ws(s, 0);
    if i1 < s.len() && s[i1] == '{' {
        let i2 = skip_ws(s, i1 + 1);
        match parse_msg_fields(s, i2, None) {
            Some((found, j)) => if skip_ws(s, j) == s.len() {
                found
            } else {
                None
            },
            None => None,
        }
    } else {
        None
    }
}

fn skip_ws_exec(s: &Vec<char>, i: usize) -> (r: usize)
    requires
        i <= s@.len(),
    ensures
        r as int == skip_ws(s@, i as int),
        i <= r <= s@.len(),
    decreases s@.len() - i,
{
    if i < s.len() {
        let c = s[i];
        if c == ' ' || c == '\t' || c == '\n' || c == '\r' {
            return skip_ws_exec(s, i + 1);
        }
    }
    i
}

/// Reads the value of a hexadecimal digit character, either case.
fn hex_val_exec(c: char) -> (r: Option<u32>)
    ensures
        match r {
            Some(h) => hex_val(c) == Some(h as nat) && h < 16,
            None => hex_val(c) is None,
        },
{
    if '0' <= c && c <= '9' {
        Some(c as u32 - 0x30)
    } else if 'a' <= c && c <= 'f' {
        Some(c as u32 - 0x57)
    } else if 'A' <= c && c <= 'F' {
        Some(c as u32 - 0x37)
    } else {
        None
    }
}

/// Reads a `\uXXXX` escape's four hex digits into the character they
/// denote.
fn parse_hex_escape_exec(s: &Vec<char>, i: usize) -> (r: Option<(char, usize)>)
    requires
        i <= s@.len(),
    ensures
        match r {
            Some(cj) => parse_hex_escape(s@, i as int) == Some((cj.0, cj.1 as int)) && i < cj.1
                <= s@.len(),
            None => parse_hex_escape(s@, i as int) is None,
        },
{
    if s.len() - i < 4 {
        return None;
    }
    let h1 = hex_val_exec(s[i]);
    let h2 = hex_val_exec(s[i + 1]);
    let h3 = hex_val_exec(s[i + 2]);
    let h4 = hex_val_exec(s[i + 3]);
    match (h1, h2, h3, h4) {
        (Some(h1), Some(h2), Some(h3), Some(h4)) => {
            let code: u32 = h1 * 0x1000 + h2 * 0x100 + h3 * 0x10 + h4;
            if 0xD800 <= code && code <= 0xDFFF {
                return None;
            }
            match char::from_u32(code) {
                Some(c) => Some((c, i + 4)),
                None => {
                    proof {
                        assert(false);
                    }
                    None
                },
            }
        },
        _ => None,
    }
}

fn parse_str_body_exec(s: &Vec<char>, i: usize) -> (r: Option<(Vec<char>, usize)>)
    requires
        i <= s@.len(),
    ensures
        match r {
            Some(tj) => parse_str_body(s@, i as int) == Some((tj.0@, tj.1 as int)) && i < tj.1
                <= s@.len(),
            None => parse_str_body(s@, i as int) is None,
        },
{
    let mut acc: Vec<char> = Vec::new();
    let mut k = i;
    proof {
        if parse_str_body(s@, i as int) is Some {
            let (t, j) = parse_str_body(s@, i as int)->Some_0;
            assert(Seq::<char>::empty() + t =~= t);
        }
    }
    loop
        invariant
            i <= k <= s@.len(),
            (match parse_str_body(s@, k as int) {
                Some((t, j)) => parse_str_body(s@, i as int) == Some((acc@ + t, j)),
                None => parse_str_body(s@, i as int) is None,
            }),
        decreases s@.len() - k,
    {
        if k >= s.len() {
            return None;
        }
        let c = s[k];
        if c == '"' {
            proof {
                assert(acc@ + Seq::<char>::empty() =~= acc@);
            }
            return Some((acc, k + 1));
        } else if c == '\\' {
            if k + 1 >= s.len() {
                return None;
            }
            let e = s[k + 1];
            if e == 'u' {
                match parse_hex_escape_exec(s, k + 2) {
                    Some((u, j1)) => {
                        let ghost a0 = acc@;
                        acc.push(u);
                        k = j1;
                        proof {
                            if parse_str_body(s@, k as int) is Some {
                                let (rest, j) = parse_str_body(s@, k as int)->Some_0;
                                assert(a0 + (seq![u] + rest) =~= acc@ + rest);
                            }
                        }
                        continue ;
                    },
                    None => {
                        return None;
                    },
                }
            }
            let u: char;
            if e == '"' {
                u = '"';
            } else if e == '\\' {
                u = '\\';
            } else if e == '/' {
                u = '/';
            } else if e == 'n' {
                u = '\n';
            } else if e == 'r' {
                u = '\r';
            } else if e == 't' {
                u = '\t';
            } else if e == 'b' {
                u = '\u{0008}';
            } else if e == 'f' {
                u = '\u{000C}';
            } else {
                return None;
            }
            let ghost a0 = acc@;
            acc.push(u);
            k = k + 2;
            proof {
                if parse_str_body(s@, k as int) is Some {
                    let (rest, j) = parse_str_body(s@, k as int)->Some_0;
                    assert(a0 + (seq![u] + rest) =~= acc@ + rest);
                }
            }
        } else {
            let ghost a0 = acc@;
            acc.push(c);
            k = k + 1;
            proof {
                if parse_str_body(s@, k as int) is Some {
                    let (rest, j) = parse_str_body(s@, k as int)->Some_0;
                    assert(a0 + (seq![c] + rest) =~= acc@ + rest);
                }
            }
        }
    }
}

fn parse_string_exec(s: &Vec<char>, i: usize) -> (r: Option<(Vec<char>, usize)>)
    requires
        i <= s@.len(),
    ensures
        match r {
            Some(tj) => parse_string(s@, i as int) == Some((tj.0@, tj.1 as int)) && i < tj.1
                <= s@.len(),
            None => parse_string(s@, i as int) is None,
        },
{
    if i < s.len() && s[i] == '"' {
        parse_str_body_exec(s, i + 1)
    } else {
        None
    }
}

fn parse_number_exec(s: &Vec<char>, i: usize) -> (r: Option<(usize, usize)>)
    requires
        i <= s@.len(),
    ensures
        match r {
            Some(nj) => parse_number(s@, i as int) == Some((nj.0 as nat, nj.1 as int)) && i < nj.1
                <= s@.len(),
            None => parse_number(s@, i as int) is None || parse_number(s@, i as int)->Some_0.0
                > usize::MAX,
        },
{
    let mut j = i;
    let mut val: usize = 0;
    let mut overflow = false;
    while j < s.len() && '0' <= s[j] && s[j] <= '9'
        invariant
            i <= j <= s@.len(),
            digit_run_end(s@, i as int) == digit_run_end(s@, j as int),
            !overflow ==> val as nat == digits_val(s@.subrange(i as int, j as int)),
            overflow ==> digits_val(s@.subrange(i as int, j as int)) > usize::MAX,
        decreases s@.len() - j,
    {
        let c = s[j];
        let d: usize = (c as u32 - '0' as u32) as usize;
        proof {
            assert(is_digit(s@[j as int]));
            assert(s@.subrange(i as int, j + 1).drop_last() =~= s@.subrange(i as int, j as int));
            assert(s@.subrange(i as int, j + 1).last() == s@[j as int]);
        }
        if overflow {
            proof {
                let prev = digits_val(s@.subrange(i as int, j as int));
                assert(prev * 10 >= prev) by (nonlinear_arith)
                    requires
                        prev >= 0,
                ;
            }
        } else {
            let limit: usize = (usize::MAX - d) / 10;
            if val <= limit {
                proof {
                    let q = (usize::MAX - d) as int / 10;
                    assert(q * 10 <= usize::MAX - d) by (nonlinear_arith)
                        requires
                            q == (usize::MAX - d) as int / 10,
                            usize::MAX - d >= 0,
                    ;
                    assert(val * 10 <= q * 10) by (nonlinear_arith)
                        requires
                            0 <= val <= q,
                    ;
                }
                val = val * 10 + d;
            } else {
                proof {
                    let q = (usize::MAX - d) as int / 10;
                    assert(q * 10 + 9 >= usize::MAX - d) by (nonlinear_arith)
                        requires
                            q == (usize::MAX - d) as int / 10,
                            usize::MAX - d >= 0,
                    ;
                    assert(val * 10 >= (q + 1) * 10) by (nonlinear_arith)
                        requires
                            val >= q + 1,
                    ;
                    assert(val * 10 + d > usize::MAX);
                }
                overflow = true;
            }
        }
        j = j + 1;
    }
    proof {
        assert(digit_run_end(s@, j as int) == j as int);
    }
    if j == i {
        return None;
    }
    if j > i + 1 && s[i] == '0' {
        return None;
    }
    if overflow {
        return None;
    }
    Some((val, j))
}

/// Compares a character vector with a string slice, character by
/// character.
fn chars_eq_str(k: &Vec<char>, lit: &str) -> (r: bool)
    ensures
        r == (k@ == lit@),
{
    let n = lit.unicode_len();
    if k.len() != n {
        proof {
            if k@ == lit@ {
                assert(k@.len() == lit@.len());
            }
        }
        return false;
    }
    let mut i: usize = 0;
    while i < n
        invariant
            k@.len() == n,
            lit@.len() == n,
            0 <= i <= n,
            forall|t: int| 0 <= t < i ==> k@[t] == lit@[t],
        decreases n - i,
    {
        if k[i] != lit.get_char(i) {
            proof {
                if k@ == lit@ {
                    assert(k@[i as int] == lit@[i as int]);
                }
            }
            return false;
        }
        i = i + 1;
    }
    proof {
        assert(k@ =~= lit@);
    }
    true
}

fn key_rank_exec(k: &Vec<char>) -> (r: usize)
    ensures
        r as int == key_rank(k@),
{
    proof {
        reveal_strlit("in_port");
        reveal_strlit("out_port");
        reveal_strlit("proto");
        reveal_strlit("in_ip");
        reveal_strlit("out_ip");
        reveal_strlit("in_path");
        reveal_strlit("out_path");
        assert("in_port"@ =~= key_in_port());
        assert("out_port"@ =~= key_out_port());
        assert("proto"@ =~= key_proto());
        assert("in_ip"@ =~= key_in_ip());
        assert("out_ip"@ =~= key_out_ip());
        assert("in_path"@ =~= key_in_path());
        assert("out_path"@ =~= key_out_path());
    }
    if chars_eq_str(k, "in_port") {
        0
    } else if chars_eq_str(k, "out_port") {
        1
    } else if chars_eq_str(k, "proto") {
        2
    } else if chars_eq_str(k, "in_ip") {
        3
    } else if chars_eq_str(k, "out_ip") {
        4
    } else if chars_eq_str(k, "in_path") {
        5
    } else if chars_eq_str(k, "out_path") {
        6
    } else {
        7
    }
}

/// Reads a protocol from its wire name; case-sensitive, so `"TCP"` or
/// `"Tcp"` are not accepted.
pub fn proto_from_chars(t: &Vec<char>) -> (r: Option<VpnKitProtocol>)
    ensures
        match r {
            Some(p) => proto_of_chars(t@) == Some(p),
            None => proto_of_chars(t@) is None,
        },
{
    proof {
        reveal_strlit("tcp");
        reveal_strlit("udp");
        reveal_strlit("unix");
        assert("tcp"@ =~= spec_proto_chars(VpnKitProtocol::TCP));
        assert("udp"@ =~= spec_proto_chars(VpnKitProtocol::UDP));
        assert("unix"@ =~= spec_proto_chars(VpnKitProtocol::UNIX));
    }
    if chars_eq_str(t, "tcp") {
        Some(VpnKitProtocol::TCP)
    } else if chars_eq_str(t, "udp") {
        Some(VpnKitProtocol::UDP)
    } else if chars_eq_str(t, "unix") {
        Some(VpnKitProtocol::UNIX)
    } else {
        None
    }
}

fn parse_null_exec(s: &Vec<char>, i: usize) -> (r: Option<usize>)
    requires
        i <= s@.len(),
    ensures
        match r {
            Some(j) => parse_null(s@, i as int) == Some(j as int) && i < j <= s@.len(),
            None => parse_null(s@, i as int) is None,
        },
{
    if s.len() - i >= 4 && s[i] == 'n' && s[i + 1] == 'u' && s[i + 2] == 'l' && s[i + 3] == 'l' {
        Some(i + 4)
    } else {
        None
    }
}

fn is_num_char_exec(c: char) -> (r: bool)
    ensures
        r == is_num_char(c),
{
    ('0' <= c && c <= '9') || c == '-' || c == '+' || c == '.' || c == 'e' || c == 'E'
}

fn num_run_end_exec(s: &Vec<char>, i: usize) -> (r: usize)
    requires
        i <= s@.len(),
    ensures
        r as int == num_run_end(s@, i as int),
        i <= r <= s@.len(),
    decreases s@.len() - i,
{
    if i < s.len() {
        if is_num_char_exec(s[i]) {
            return num_run_end_exec(s, i + 1);
        }
    }
    i
}

/// Walks over one JSON value of whatever shape.
fn skip_value_exec(s: &Vec<char>, i: usize) -> (r: Option<usize>)
    requires
        i <= s@.len(),
    ensures
        match r {
            Some(j) => skip_value(s@, i as int) == Some(j as int) && i < j <= s@.len(),
            None => skip_value(s@, i as int) is None,
        },
    decreases s@.len() - i, 0int,
{
    if i >= s.len() {
        return None;
    }
    let c = s[i];
    if c == '"' {
        match parse_string_exec(s, i) {
            Some((t, j)) => Some(j),
            None => None,
        }
    } else if is_num_char_exec(c) {
        let j = num_run_end_exec(s, i + 1);
        proof {
            assert(num_run_end(s@, i as int) == j as int);
        }
        Some(j)
    } else if c == 'n' {
        parse_null_exec(s, i)
    } else if c == 't' {
        if s.len() - i >= 4 && s[i + 1] == 'r' && s[i + 2] == 'u' && s[i + 3] == 'e' {
            Some(i + 4)
        } else {
            None
        }
    } else if c == 'f' {
        if s.len() - i >= 5 && s[i + 1] == 'a' && s[i + 2] == 'l' && s[i + 3] == 's' && s[i + 4]
            == 'e' {
            Some(i + 5)
        } else {
            None
        }
    } else if c == '{' {
        let j = skip_ws_exec(s, i + 1);
        if j < s.len() && s[j] == '}' {
            Some(j + 1)
        } else if i < j && j <= s.len() {
            skip_members_exec(s, j)
        } else {
            None
        }
    } else if c == '[' {
        let j = skip_ws_exec(s, i + 1);
        if j < s.len() && s[j] == ']' {
            Some(j + 1)
        } else if i < j && j <= s.len() {
            skip_elements_exec(s, j)
        } else {
            None
        }
    } else {
        None
    }
}

/// Walks over the members of an object being skipped.
fn skip_members_exec(s: &Vec<char>, i: usize) -> (r: Option<usize>)
    requires
        i <= s@.len(),
    ensures
        match r {
            Some(j) => skip_members(s@, i as int) == Some(j as int) && i < j <= s@.len(),
            None => skip_members(s@, i as int) is None,
        },
    decreases s@.len() - i, 1int,
{
    match parse_string_exec(s, i) {
        None => None,
        Some((k, j)) => {
            let j1 = skip_ws_exec(s, j);
            if j1 >= s.len() {
                return None;
            }
            if s[j1] != ':' {
                return None;
            }
            let j2 = skip_ws_exec(s, j1 + 1);
            if !(i < j2 && j2 <= s.len()) {
                return None;
            }
            match skip_value_exec(s, j2) {
                None => None,
                Some(j3) => {
                    let j4 = skip_ws_exec(s, j3);
                    if j4 < s.len() && s[j4] == '}' {
                        return Some(j4 + 1);
                    }
                    if j4 < s.len() && s[j4] == ',' {
                        let j5 = skip_ws_exec(s, j4 + 1);
                        if i < j5 && j5 <= s.len() {
                            return skip_members_exec(s, j5);
                        }
                        return None;
                    }
                    None
                },
            }
        },
    }
}

/// Walks over the elements of an array being skipped.
fn skip_elements_exec(s: &Vec<char>, i: usize) -> (r: Option<usize>)
    requires
        i <= s@.len(),
    ensures
        match r {
            Some(j) => skip_elements(s@, i as int) == Some(j as int) && i < j <= s@.len(),
            None => skip_elements(s@, i as int) is None,
        },
    decreases s@.len() - i, 1int,
{
    match skip_value_exec(s, i) {
        None => None,
        Some(j) => {
            let j1 = skip_ws_exec(s, j);
            if j1 < s.len() && s[j1] == ']' {
                return Some(j1 + 1);
            }
            if j1 < s.len() && s[j1] == ',' {
                let j2 = skip_ws_exec(s, j1 + 1);
                if i < j2 && j2 <= s.len() {
                    return skip_elements_exec(s, j2);
                }
                return None;
            }
            None
        },
    }
}

fn parse_value_exec(s: &Vec<char>, i: usize, rank: usize, acc: &mut VpnKitPort) -> (r: Option<
    usize,
>)
    requires
        i <= s@.len(),
        rank <= 6,
    ensures
        match r {
            Some(j) => parse_value_for(s@, i as int, rank as int, old(acc)@) == Some(
                (final(acc)@, j as int),
            ) && i < j <= s@.len(),
            None => parse_value_for(s@, i as int, rank as int, old(acc)@) is None,
        },
{
    if let Some(j) = parse_null_exec(s, i) {
        return Some(j);
    }
    if rank == 0 || rank == 1 {
        match parse_number_exec(s, i) {
            Some((n, j)) => {
                if rank == 0 {
                    acc.in_port = Some(n);
                    proof {
                        assert(acc@ =~= (RuleView { in_port: Some(n), ..old(acc)@ }));
                    }
                } else {
                    acc.out_port = Some(n);
                    proof {
                        assert(acc@ =~= (RuleView { out_port: Some(n), ..old(acc)@ }));
                    }
                }
                Some(j)
            },
            None => None,
        }
    } else if rank == 2 {
        match parse_string_exec(s, i) {
            Some((t, j)) => match proto_from_chars(&t) {
                Some(p) => {
                    acc.proto = Some(p);
                    proof {
                        assert(acc@ =~= (RuleView { proto: Some(p), ..old(acc)@ }));
                    }
                    Some(j)
                },
                None => None,
            },
            None => None,
        }
    } else {
        match parse_string_exec(s, i) {
            Some((t, j)) => {
                let ghost tv = t@;
                let text = chars_to_string(t);
                if rank == 3 {
                    acc.in_ip = Some(text);
                    proof {
                        assert(acc@ =~= (RuleView { in_ip: Some(tv), ..old(acc)@ }));
                    }
                } else if rank == 4 {
                    acc.out_ip = Some(text);
                    proof {
                        assert(acc@ =~= (RuleView { out_ip: Some(tv), ..old(acc)@ }));
                    }
                } else if rank == 5 {
                    acc.in_path = Some(text);
                    proof {
                        assert(acc@ =~= (RuleView { in_path: Some(tv), ..old(acc)@ }));
                    }
                } else {
                    acc.out_path = Some(text);
                    proof {
                        assert(acc@ =~= (RuleView { out_path: Some(tv), ..old(acc)@ }));
                    }
                }
                Some(j)
            },
            None => None,
        }
    }
}

fn parse_fields_exec(s: &Vec<char>, i: usize, acc: &mut VpnKitPort) -> (r: Option<usize>)
    requires
        i <= s@.len(),
    ensures
        match r {
            Some(j) => parse_fields(s@, i as int, old(acc)@) == Some((final(acc)@, j as int))
                && i < j <= s@.len(),
            None => parse_fields(s@, i as int, old(acc)@) is None,
        },
    decreases s@.len() - i,
{
    match parse_string_exec(s, i) {
        None => None,
        Some((k, j)) => {
            let rank = key_rank_exec(&k);
            let j1 = skip_ws_exec(s, j);
            if j1 >= s.len() {
                return None;
            }
            if s[j1] != ':' {
                return None;
            }
            let j2 = skip_ws_exec(s, j1 + 1);
            let step: Option<usize> = if rank <= 6 {
                parse_value_exec(s, j2, rank, acc)
            } else {
                skip_value_exec(s, j2)
            };
            match step {
                None => None,
                Some(j3) => {
                    let j4 = skip_ws_exec(s, j3);
                    if j4 < s.len() && s[j4] == '}' {
                        return Some(j4 + 1);
                    }
                    if j4 < s.len() && s[j4] == ',' {
                        let j5 = skip_ws_exec(s, j4 + 1);
                        if i < j5 && j5 <= s.len() {
                            return parse_fields_exec(s, j5, acc);
                        }
                        return None;
                    }
                    None
                },
            }
        },
    }
}

fn parse_rule_at_exec(s: &Vec<char>, i: usize) -> (r: Option<(VpnKitPort, usize)>)
    requires
        i <= s@.len(),
    ensures
        match r {
            Some(pj) => parse_rule_at(s@, i as int) == Some((pj.0@, pj.1 as int)) && i < pj.1
                <= s@.len(),
            None => parse_rule_at(s@, i as int) is None,
        },
{
    let i1 = skip_ws_exec(s, i);
    if i1 >= s.len() {
        return None;
    }
    if s[i1] != '{' {
        return None;
    }
    let i2 = skip_ws_exec(s, i1 + 1);
    if i2 < s.len() && s[i2] == '}' {
        let p = VpnKitPort::empty();
        return Some((p, i2 + 1));
    }
    let mut p = VpnKitPort::empty();
    match parse_fields_exec(s, i2, &mut p) {
        Some(j) => Some((p, j)),
        None => None,
    }
}

impl VpnKitPort {
    /// Reads one rule from a JSON text; `None` when the text is not a rule
    /// object of this wire format.
    pub fn from_json(s: &str) -> (r: Option<VpnKitPort>)
        ensures
            match r {
                Some(p) => spec_parse_rule(s@) == Some(p@),
                None => spec_parse_rule(s@) is None,
            },
    {
        let chars = str_to_chars(s);
        match parse_rule_at_exec(&chars, 0) {
            Some((p, j)) => {
                let j2 = skip_ws_exec(&chars, j);
                if j2 == chars.len() {
                    Some(p)
                } else {
                    None
                }
            },
            None => None,
        }
    }
}

fn parse_rules_more_exec(s: &Vec<char>, i: usize, acc: &mut Vec<VpnKitPort>) -> (r: Option<usize>)
    requires
        i <= s@.len(),
    ensures
        match r {
            Some(j) => parse_rules_more(s@, i as int, old(acc).deep_view()) == Some(
                (final(acc).deep_view(), j as int),
            ) && j <= s@.len(),
            None => parse_rules_more(s@, i as int, old(acc).deep_view()) is None,
        },
    decreases s@.len() - i,
{
    let j = skip_ws_exec(s, i);
    if j < s.len() {
        let c = s[j];
        if c == ']' {
            return Some(j + 1);
        }
        if c == ',' {
            match parse_rule_at_exec(s, j + 1) {
                Some((v, k)) => {
                    let ghost a0 = acc.deep_view();
                    let ghost vv = v@;
                    acc.push(v);
                    proof {
                        assert(acc.deep_view() =~= a0.push(vv));
                    }
                    return parse_rules_more_exec(s, k, acc);
                },
                None => {
                    return None;
                },
            }
        }
    }
    None
}

/// Reads the daemon's listing: a JSON array of rule objects. `None` when
/// the text is not such an array.
pub fn parse_rule_list(s: &str) -> (r: Option<Vec<VpnKitPort>>)
    ensures
        match r {
            Some(v) => spec_parse_rule_list(s@) == Some(v.deep_view()),
            None => spec_parse_rule_list(s@) is None,
        },
{
    let chars = str_to_chars(s);
    let i = skip_ws_exec(&chars, 0);
    if i >= chars.len() {
        return None;
    }
    if chars[i] != '[' {
        return None;
    }
    let j = skip_ws_exec(&chars, i + 1);
    if j < chars.len() && chars[j] == ']' {
        let j2 = skip_ws_exec(&chars, j + 1);
        if j2 == chars.len() {
            let out: Vec<VpnKitPort> = Vec::new();
            proof {
                assert(out.deep_view() =~= Seq::<RuleView>::empty());
            }
            return Some(out);
        }
        return None;
    }
    match parse_rule_at_exec(&chars, i + 1) {
        None => None,
        Some((p, k)) => {
            let ghost pv = p@;
            let mut out: Vec<VpnKitPort> = Vec::new();
            out.push(p);
            proof {
                assert(out.deep_view() =~= seq![pv]);
            }
            match parse_rules_more_exec(&chars, k, &mut out) {
                None => None,
                Some(m) => {
                    let m2 = skip_ws_exec(&chars, m);
                    if m2 == chars.len() {
                        Some(out)
                    } else {
                        None
                    }
                },
            }
        },
    }
}

fn parse_msg_fields_exec(s: &Vec<char>, i: usize, found: &mut Option<Vec<char>>) -> (r: Option<
    usize,
>)
    requires
        i <= s@.len(),
    ensures
        match r {
            Some(j) => parse_msg_fields(s@, i as int, old(found).deep_view()) == Some(
                (final(found).deep_view(), j as int),
            ) && j <= s@.len(),
            None => parse_msg_fields(s@, i as int, old(found).deep_view()) is None,
        },
    decreases s@.len() - i,
{
    match parse_string_exec(s, i) {
        None => None,
        Some((k, j)) => {
            proof {
                reveal_strlit("message");
                assert("message"@ =~= key_message());
            }
            let j1 = skip_ws_exec(s, j);
            if j1 >= s.len() {
                return None;
            }
            if s[j1] != ':' {
                return None;
            }
            let j2 = skip_ws_exec(s, j1 + 1);
            let step: Option<usize> = if chars_eq_str(&k, "message") {
                match parse_string_exec(s, j2) {
                    Some((m, j3)) => {
                        proof {
                            assert(m.deep_view() =~= m@);
                        }
                        *found = Some(m);
                        Some(j3)
                    },
                    None => None,
                }
            } else {
                skip_value_exec(s, j2)
            };
            match step {
                None => None,
                Some(j3) => {
                    let j4 = skip_ws_exec(s, j3);
                    if j4 < s.len() && s[j4] == '}' {
                        return Some(j4 + 1);
                    }
                    if j4 < s.len() && s[j4] == ',' {
                        let j5 = skip_ws_exec(s, j4 + 1);
                        if i < j5 && j5 <= s.len() {
                            return parse_msg_fields_exec(s, j5, found);
                        }
                        return None;
                    }
                    None
                },
            }
        },
    }
}

impl crate::rules::VpnKitError {
    /// Reads the daemon's error payload from a JSON text: an object with a
    /// `"message"` member whose value is a string, other members ignored;
    /// `None` when the text has another shape.
    pub fn from_json(s: &str) -> (r: Option<Self>)
        ensures
            match r {
                Some(e) => spec_parse_error_msg(s@) == Some(e.message@),
                None => spec_parse_error_msg(s@) is None,
            },
    {
        let chars = str_to_chars(s);
        let i1 = skip_ws_exec(&chars, 0);
        if i1 >= chars.len() {
            return None;
        }
        if chars[i1] != '{' {
            return None;
        }
        let i2 = skip_ws_exec(&chars, i1 + 1);
        let mut found: Option<Vec<char>> = None;
        match parse_msg_fields_exec(&chars, i2, &mut found) {
            None => None,
            Some(j) => {
                let j2 = skip_ws_exec(&chars, j);
                if j2 != chars.len() {
                    return None;
                }
                match found {
                    Some(m) => {
                        proof {
                            assert(m.deep_view() =~= m@);
                        }
                        Some(crate::rules::VpnKitError { message: chars_to_string(m) })
                    },
                    None => None,
                }
            },
        }
    }
}

} // verus!

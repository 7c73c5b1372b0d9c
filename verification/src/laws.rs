//! Laws of the wire format, proved once for every rule: the protocol names
//! read back as the protocols they stand for, and a serialized rule parses
//! back to the very rule it came from.

use vstd::prelude::*;

use crate::json::{
    digit_val, digits_val, is_digit, json_escape, json_escape_char, key_in_ip, key_in_path,
    key_in_port, key_out_ip, key_out_path, key_out_port, key_proto, needs_escape, port_segments,
    proto_segments, rule_segments, spec_dec, spec_digit_char, spec_hex_digit, spec_join,
    spec_member, spec_proto_chars, spec_rule_json, spec_string_json, str_segments,
};
use crate::json::lemma_escape_plain;
use crate::parse::{
    digit_run_end, hex_val, key_rank, parse_fields, parse_hex_escape, parse_null, parse_number,
    parse_rule_at, parse_str_body, parse_string, parse_value_for, proto_of_chars, skip_ws,
    spec_parse_rule, unescape_char,
};
use crate::rules::{empty_rule_view, RuleView, VpnKitProtocol};

verus! {

/// The protocol wire names round-trip: each protocol's name reads back as
/// that protocol, and a name that reads as a protocol is that protocol's
/// name. With the serializer's and parser's contracts this is the law that
/// `"tcp"`, `"udp"` and `"unix"` — and no other spellings — denote the
/// three protocols.
pub proof fn lemma_proto_wire_names(p: VpnKitProtocol, t: Seq<char>)
    ensures
        proto_of_chars(spec_proto_chars(p)) == Some(p),
        proto_of_chars(t) == Some(p) ==> t == spec_proto_chars(p),
{
    assert(spec_proto_chars(VpnKitProtocol::TCP)[0] != spec_proto_chars(VpnKitProtocol::UDP)[0]);
    assert(spec_proto_chars(VpnKitProtocol::TCP).len() != spec_proto_chars(
        VpnKitProtocol::UNIX,
    ).len());
    assert(spec_proto_chars(VpnKitProtocol::UDP).len() != spec_proto_chars(
        VpnKitProtocol::UNIX,
    ).len());
}

/// `t` stands at position `i` of `s`.
pub open spec fn matches_at(s: Seq<char>, i: int, t: Seq<char>) -> bool {
    0 <= i && i + t.len() <= s.len() && s.subrange(i, i + t.len()) == t
}

proof fn lemma_matches_at_index(s: Seq<char>, i: int, t: Seq<char>, k: int)
    requires
        matches_at(s, i, t),
        0 <= k < t.len(),
    ensures
        s[i + k] == t[k],
{
    assert(s.subrange(i, i + t.len())[k] == t[k]);
}

proof fn lemma_matches_at_sub(s: Seq<char>, i: int, t: Seq<char>, a: int, b: int)
    requires
        matches_at(s, i, t),
        0 <= a <= b <= t.len(),
    ensures
        matches_at(s, i + a, t.subrange(a, b)),
{
    assert(s.subrange(i + a, i + b) =~= t.subrange(a, b)) by {
        assert forall|k: int| 0 <= k < b - a implies s.subrange(i + a, i + b)[k] == t.subrange(
            a,
            b,
        )[k] by {
            lemma_matches_at_index(s, i, t, a + k);
        }
    }
}

/// The hexadecimal digit characters read back as their values.
proof fn lemma_hex_digit_val(d: nat)
    requires
        d < 16,
    ensures
        hex_val(spec_hex_digit(d)) == Some(d),
{
    if d < 10 {
        assert(spec_hex_digit(d) as int == 0x30 + d);
    } else {
        assert(spec_hex_digit(d) as int == 0x57 + d);
    }
}

/// A serialized string body (escaped contents and the closing quote) reads
/// back as its contents.
proof fn lemma_parse_str_body_at(s: Seq<char>, i: int, content: Seq<char>)
    requires
        matches_at(s, i, json_escape(content) + seq!['"']),
    ensures
        parse_str_body(s, i) == Some((content, i + json_escape(content).len() + 1)),
    decreases content.len(),
{
    let t = json_escape(content) + seq!['"'];
    if content.len() == 0 {
        assert(json_escape(content) =~= Seq::<char>::empty());
        lemma_matches_at_index(s, i, t, 0);
        assert(s[i] == '"');
        assert(parse_str_body(s, i) == Some((Seq::<char>::empty(), i + 1)));
        assert(content =~= Seq::<char>::empty());
    } else {
        let c0 = content[0];
        let rest = content.skip(1);
        assert(json_escape(content) == json_escape_char(c0) + json_escape(rest));
        let e0 = json_escape_char(c0);
        assert(t =~= e0 + (json_escape(rest) + seq!['"']));
        lemma_matches_at_index(s, i, t, 0);
        assert(s[i] == e0[0]);
        if e0.len() >= 2 {
            lemma_matches_at_index(s, i, t, 1);
            assert(s[i + 1] == e0[1]);
        }
        lemma_matches_at_sub(s, i, t, e0.len() as int, t.len() as int);
        assert(t.subrange(e0.len() as int, t.len() as int) =~= json_escape(rest) + seq!['"']);
        if needs_escape(c0) && e0.len() == 2 {
            assert(s[i] == '\\');
            assert(unescape_char(s[i + 1]) == Some(c0));
            lemma_parse_str_body_at(s, i + 2, rest);
            assert(seq![c0] + rest =~= content);
        } else if needs_escape(c0) {
            // the six-character `\u00xx` form of a control character
            assert(e0.len() == 6);
            assert(s[i] == '\\');
            assert(s[i + 1] == 'u');
            lemma_matches_at_index(s, i, t, 2);
            lemma_matches_at_index(s, i, t, 3);
            lemma_matches_at_index(s, i, t, 4);
            lemma_matches_at_index(s, i, t, 5);
            assert(s[i + 2] == '0' && s[i + 3] == '0');
            vstd::utf8::char_is_scalar(c0);
            vstd::utf8::char_u32_cast(c0, c0 as u32);
            assert(0 <= (c0 as int) && (c0 as int) < 0x20);
            let d1 = (c0 as int / 16) as nat;
            let d2 = (c0 as int % 16) as nat;
            assert(s[i + 4] == spec_hex_digit(d1));
            assert(s[i + 5] == spec_hex_digit(d2));
            assert(hex_val('0') == Some(0nat));
            lemma_hex_digit_val(d1);
            lemma_hex_digit_val(d2);
            let code = 0nat * 0x1000 + 0nat * 0x100 + d1 * 0x10 + d2;
            assert(code == c0 as int);
            assert(code < 0x20);
            assert(((code as u32) as char) == c0);
            assert(parse_hex_escape(s, i + 2) == Some((c0, i + 6)));
            lemma_parse_str_body_at(s, i + 6, rest);
            assert(seq![c0] + rest =~= content);
        } else {
            assert(e0 =~= seq![c0]);
            assert(s[i] == c0);
            assert(c0 != '"' && c0 != '\\');
            lemma_parse_str_body_at(s, i + 1, rest);
            assert(seq![c0] + rest =~= content);
        }
    }
}

/// A serialized string (quotes around escaped contents) reads back as its
/// contents.
proof fn lemma_parse_string_at(s: Seq<char>, i: int, content: Seq<char>)
    requires
        matches_at(s, i, spec_string_json(content)),
    ensures
        parse_string(s, i) == Some((content, i + spec_string_json(content).len())),
{
    let t = spec_string_json(content);
    lemma_matches_at_index(s, i, t, 0);
    assert(s[i] == '"');
    lemma_matches_at_sub(s, i, t, 1, t.len() as int);
    assert(t.subrange(1, t.len() as int) =~= json_escape(content) + seq!['"']);
    lemma_parse_str_body_at(s, i + 1, content);
}

/// Every character of a decimal notation is a digit.
proof fn lemma_dec_digits(n: nat)
    ensures
        spec_dec(n).len() >= 1,
        forall|k: int| 0 <= k < spec_dec(n).len() ==> is_digit(#[trigger] spec_dec(n)[k]),
        spec_dec(n).len() > 1 ==> spec_dec(n)[0] != '0',
    decreases n,
{
    if n < 10 {
        assert(is_digit(spec_dec(n)[0]));
    } else {
        lemma_dec_digits(n / 10);
        assert forall|k: int| 0 <= k < spec_dec(n).len() implies is_digit(
            #[trigger] spec_dec(n)[k],
        ) by {
            if k < spec_dec(n / 10).len() {
                assert(spec_dec(n)[k] == spec_dec(n / 10)[k]);
            } else {
                assert(spec_dec(n)[k] == spec_digit_char(n % 10));
            }
        }
        assert(spec_dec(n)[0] == spec_dec(n / 10)[0]);
        if n / 10 < 10 {
            assert(spec_dec(n / 10)[0] == spec_digit_char(n / 10));
            assert(spec_digit_char(n / 10) as int == 0x30 + n / 10);
            assert(spec_dec(n)[0] != '0');
        } else {
            lemma_dec_digits(n / 100);
            assert(spec_dec(n / 10).len() > 1);
        }
    }
}

/// The value of a decimal notation is the number it was made from.
proof fn lemma_digits_val_dec(n: nat)
    ensures
        digits_val(spec_dec(n)) == n,
    decreases n,
{
    if n < 10 {
        reveal_with_fuel(digits_val, 2);
        assert(spec_dec(n).drop_last() =~= Seq::<char>::empty());
        assert(spec_dec(n).last() == spec_digit_char(n));
        assert(digit_val(spec_digit_char(n)) == n);
    } else {
        lemma_digits_val_dec(n / 10);
        assert(spec_dec(n).drop_last() =~= spec_dec(n / 10));
        assert(spec_dec(n).last() == spec_digit_char(n % 10));
        assert(digit_val(spec_digit_char(n % 10)) == n % 10);
    }
}

/// A run of digits bounded by a non-digit scans exactly to its end.
proof fn lemma_digit_run(s: Seq<char>, i: int, ds: Seq<char>)
    requires
        matches_at(s, i, ds),
        forall|k: int| 0 <= k < ds.len() ==> is_digit(#[trigger] ds[k]),
        i + ds.len() == s.len() || !is_digit(s[i + ds.len()]),
    ensures
        digit_run_end(s, i) == i + ds.len(),
    decreases ds.len(),
{
    if ds.len() == 0 {
        assert(digit_run_end(s, i) == i);
    } else {
        lemma_matches_at_index(s, i, ds, 0);
        assert(is_digit(s[i]));
        lemma_matches_at_sub(s, i, ds, 1, ds.len() as int);
        lemma_digit_run(s, i + 1, ds.skip(1));
        assert(ds.skip(1) =~= ds.subrange(1, ds.len() as int));
    }
}

/// A serialized number bounded by a non-digit reads back as its value.
proof fn lemma_parse_number_at(s: Seq<char>, i: int, n: usize)
    requires
        matches_at(s, i, spec_dec(n as nat)),
        i + spec_dec(n as nat).len() == s.len() || !is_digit(s[i + spec_dec(n as nat).len()]),
    ensures
        parse_number(s, i) == Some((n as nat, i + spec_dec(n as nat).len())),
{
    let ds = spec_dec(n as nat);
    lemma_dec_digits(n as nat);
    lemma_digit_run(s, i, ds);
    assert(s.subrange(i, i + ds.len()) == ds);
    if ds.len() > 1 {
        lemma_matches_at_index(s, i, ds, 0);
        assert(s[i] != '0');
    }
    lemma_digits_val_dec(n as nat);
}

/// The rule keys have no character the serializer escapes.
proof fn lemma_keys_plain()
    ensures
        json_escape(key_in_port()) == key_in_port(),
        json_escape(key_out_port()) == key_out_port(),
        json_escape(key_proto()) == key_proto(),
        json_escape(key_in_ip()) == key_in_ip(),
        json_escape(key_out_ip()) == key_out_ip(),
        json_escape(key_in_path()) == key_in_path(),
        json_escape(key_out_path()) == key_out_path(),
{
    assert forall|k: int| 0 <= k < key_in_port().len() implies !needs_escape(
        #[trigger] key_in_port()[k],
    ) by {}
    lemma_escape_plain(key_in_port());
    assert forall|k: int| 0 <= k < key_out_port().len() implies !needs_escape(
        #[trigger] key_out_port()[k],
    ) by {}
    lemma_escape_plain(key_out_port());
    assert forall|k: int| 0 <= k < key_proto().len() implies !needs_escape(
        #[trigger] key_proto()[k],
    ) by {}
    lemma_escape_plain(key_proto());
    assert forall|k: int| 0 <= k < key_in_ip().len() implies !needs_escape(
        #[trigger] key_in_ip()[k],
    ) by {}
    lemma_escape_plain(key_in_ip());
    assert forall|k: int| 0 <= k < key_out_ip().len() implies !needs_escape(
        #[trigger] key_out_ip()[k],
    ) by {}
    lemma_escape_plain(key_out_ip());
    assert forall|k: int| 0 <= k < key_in_path().len() implies !needs_escape(
        #[trigger] key_in_path()[k],
    ) by {}
    lemma_escape_plain(key_in_path());
    assert forall|k: int| 0 <= k < key_out_path().len() implies !needs_escape(
        #[trigger] key_out_path()[k],
    ) by {}
    lemma_escape_plain(key_out_path());
}

/// Each rule key has its own rank.
proof fn lemma_key_ranks()
    ensures
        key_rank(key_in_port()) == 0,
        key_rank(key_out_port()) == 1,
        key_rank(key_proto()) == 2,
        key_rank(key_in_ip()) == 3,
        key_rank(key_out_ip()) == 4,
        key_rank(key_in_path()) == 5,
        key_rank(key_out_path()) == 6,
{
    assert(key_in_port()[4] != key_in_path()[4]);
    assert(key_out_port()[5] != key_out_path()[5]);
    assert(key_proto()[0] != key_in_ip()[0]);
    assert(key_proto()[0] != key_out_ip()[0]);
    assert(key_in_ip()[0] != key_out_ip()[0]);
}

/// The members of a rule's JSON object whose field rank is `r` or above.
pub open spec fn rule_segments_from(v: RuleView, r: int) -> Seq<Seq<char>> {
    (if r <= 0 {
        port_segments(key_in_port(), v.in_port)
    } else {
        Seq::empty()
    }) + (if r <= 1 {
        port_segments(key_out_port(), v.out_port)
    } else {
        Seq::empty()
    }) + (if r <= 2 {
        proto_segments(v.proto)
    } else {
        Seq::empty()
    }) + (if r <= 3 {
        str_segments(key_in_ip(), v.in_ip)
    } else {
        Seq::empty()
    }) + (if r <= 4 {
        str_segments(key_out_ip(), v.out_ip)
    } else {
        Seq::empty()
    }) + (if r <= 5 {
        str_segments(key_in_path(), v.in_path)
    } else {
        Seq::empty()
    }) + (if r <= 6 {
        str_segments(key_out_path(), v.out_path)
    } else {
        Seq::empty()
    })
}

/// The rule with every field of rank `r` or above cleared.
pub open spec fn clear_from(v: RuleView, r: int) -> RuleView {
    RuleView {
        in_port: if r <= 0 {
            None
        } else {
            v.in_port
        },
        out_port: if r <= 1 {
            None
        } else {
            v.out_port
        },
        proto: if r <= 2 {
            None
        } else {
            v.proto
        },
        in_ip: if r <= 3 {
            None
        } else {
            v.in_ip
        },
        out_ip: if r <= 4 {
            None
        } else {
            v.out_ip
        },
        in_path: if r <= 5 {
            None
        } else {
            v.in_path
        },
        out_path: if r <= 6 {
            None
        } else {
            v.out_path
        },
    }
}


/// A nonempty tail of members starts with the quote of its first key.
proof fn lemma_segments_start_quote(v: RuleView, rr: int)
    requires
        rule_segments_from(v, rr).len() > 0,
    ensures
        spec_join(rule_segments_from(v, rr)).len() > 0,
        spec_join(rule_segments_from(v, rr))[0] == '"',
{
    let segs = rule_segments_from(v, rr);
    let m: Seq<char>;
    if rr <= 0 && v.in_port is Some {
        m = segs[0];
        assert(m == spec_member(key_in_port(), spec_dec(v.in_port->0 as nat)));
    } else if rr <= 1 && v.out_port is Some {
        m = segs[0];
        assert(m == spec_member(key_out_port(), spec_dec(v.out_port->0 as nat)));
    } else if rr <= 2 && v.proto is Some {
        m = segs[0];
        assert(m == spec_member(key_proto(), spec_string_json(spec_proto_chars(v.proto->0))));
    } else if rr <= 3 && v.in_ip is Some {
        m = segs[0];
        assert(m == spec_member(key_in_ip(), spec_string_json(v.in_ip->0)));
    } else if rr <= 4 && v.out_ip is Some {
        m = segs[0];
        assert(m == spec_member(key_out_ip(), spec_string_json(v.out_ip->0)));
    } else if rr <= 5 && v.in_path is Some {
        m = segs[0];
        assert(m == spec_member(key_in_path(), spec_string_json(v.in_path->0)));
    } else if rr <= 6 && v.out_path is Some {
        m = segs[0];
        assert(m == spec_member(key_out_path(), spec_string_json(v.out_path->0)));
    } else {
        m = Seq::empty();
        assert(segs =~= Seq::<Seq<char>>::empty());
        assert(false);
    }
    assert(m[0] == '"');
    if segs.len() == 1 {
        assert(spec_join(segs) == m);
    } else {
        assert(spec_join(segs) == m + seq![','] + spec_join(segs.skip(1)));
    }
    assert(spec_join(segs)[0] == '"');
}

/// One member of a rule object at a position: its key parses back, the
/// colon follows, its value stands right after, and the given tail after
/// the value.
proof fn lemma_member_shape(s: Seq<char>, i: int, key: Seq<char>, val: Seq<char>, tail: Seq<char>)
    requires
        matches_at(s, i, spec_member(key, val) + tail),
        json_escape(key) == key,
    ensures
        parse_string(s, i) == Some((key, i + spec_string_json(key).len())),
        s[i + spec_string_json(key).len()] == ':',
        skip_ws(s, i + spec_string_json(key).len()) == i + spec_string_json(key).len(),
        matches_at(s, i + spec_string_json(key).len() + 1, val),
        matches_at(s, i + spec_member(key, val).len(), tail),
{
    let sk = spec_string_json(key);
    let m = spec_member(key, val);
    let tt = m + tail;
    assert(m == sk + seq![':'] + val);
    lemma_matches_at_sub(s, i, tt, 0, sk.len() as int);
    assert(tt.subrange(0, sk.len() as int) =~= sk);
    lemma_parse_string_at(s, i, key);
    lemma_matches_at_index(s, i, tt, sk.len() as int);
    assert(tt[sk.len() as int] == ':');
    lemma_matches_at_sub(s, i, tt, sk.len() as int + 1, m.len() as int);
    assert(tt.subrange(sk.len() as int + 1, m.len() as int) =~= val);
    lemma_matches_at_sub(s, i, tt, m.len() as int, tt.len() as int);
    assert(tt.subrange(m.len() as int, tt.len() as int) =~= tail);
}

/// A serialized port value, followed by a non-digit, parses and sets the
/// port field of rank `r`.
proof fn lemma_parse_value_port(s: Seq<char>, i: int, r: int, acc: RuleView, n: usize, tailc: char)
    requires
        r == 0 || r == 1,
        matches_at(s, i, spec_dec(n as nat)),
        i + spec_dec(n as nat).len() < s.len(),
        s[i + spec_dec(n as nat).len()] == tailc,
        !is_digit(tailc),
    ensures
        skip_ws(s, i) == i,
        parse_value_for(s, i, r, acc) == Some(
            (
                if r == 0 {
                    RuleView { in_port: Some(n), ..acc }
                } else {
                    RuleView { out_port: Some(n), ..acc }
                },
                i + spec_dec(n as nat).len(),
            ),
        ),
{
    lemma_dec_digits(n as nat);
    lemma_matches_at_index(s, i, spec_dec(n as nat), 0);
    assert(is_digit(s[i]));
    assert(s[i] != 'n');
    assert(parse_null(s, i) is None);
    lemma_parse_number_at(s, i, n);
}

/// A serialized string value parses and sets the field of rank `r`: the
/// protocol field when `r` is its rank, a plain string field otherwise.
proof fn lemma_parse_value_str(s: Seq<char>, i: int, r: int, acc: RuleView, content: Seq<char>)
    requires
        2 <= r <= 6,
        matches_at(s, i, spec_string_json(content)),
        r == 2 ==> proto_of_chars(content) is Some,
    ensures
        skip_ws(s, i) == i,
        parse_value_for(s, i, r, acc) == Some(
            (
                if r == 2 {
                    RuleView { proto: Some(proto_of_chars(content)->0), ..acc }
                } else if r == 3 {
                    RuleView { in_ip: Some(content), ..acc }
                } else if r == 4 {
                    RuleView { out_ip: Some(content), ..acc }
                } else if r == 5 {
                    RuleView { in_path: Some(content), ..acc }
                } else {
                    RuleView { out_path: Some(content), ..acc }
                },
                i + spec_string_json(content).len(),
            ),
        ),
{
    lemma_matches_at_index(s, i, spec_string_json(content), 0);
    assert(s[i] == '"');
    assert(s[i] != 'n');
    assert(parse_null(s, i) is None);
    assert(skip_ws(s, i) == i);
    lemma_parse_string_at(s, i, content);
}

/// The serialized member the field of rank `r` contributes when set.
pub open spec fn member_of_rank(v: RuleView, r: int) -> Seq<char> {
    if r == 0 {
        spec_member(key_in_port(), spec_dec(v.in_port->0 as nat))
    } else if r == 1 {
        spec_member(key_out_port(), spec_dec(v.out_port->0 as nat))
    } else if r == 2 {
        spec_member(key_proto(), spec_string_json(spec_proto_chars(v.proto->0)))
    } else if r == 3 {
        spec_member(key_in_ip(), spec_string_json(v.in_ip->0))
    } else if r == 4 {
        spec_member(key_out_ip(), spec_string_json(v.out_ip->0))
    } else if r == 5 {
        spec_member(key_in_path(), spec_string_json(v.in_path->0))
    } else {
        spec_member(key_out_path(), spec_string_json(v.out_path->0))
    }
}

/// When the field of rank `r` is set, its member heads the tail of members
/// from `r` on.
#[verifier::rlimit(100)]
#[verifier::spinoff_prover]
proof fn lemma_segments_step(v: RuleView, r: int)
    requires
        0 <= r <= 6,
        r == 0 ==> v.in_port is Some,
        r == 1 ==> v.out_port is Some,
        r == 2 ==> v.proto is Some,
        r == 3 ==> v.in_ip is Some,
        r == 4 ==> v.out_ip is Some,
        r == 5 ==> v.in_path is Some,
        r == 6 ==> v.out_path is Some,
    ensures
        rule_segments_from(v, r) == seq![member_of_rank(v, r)] + rule_segments_from(v, r + 1),
{
    if r == 0 {
        assert(rule_segments_from(v, 0) =~= seq![member_of_rank(v, 0)] + rule_segments_from(v, 1));
    } else if r == 1 {
        assert(rule_segments_from(v, 1) =~= seq![member_of_rank(v, 1)] + rule_segments_from(v, 2));
    } else if r == 2 {
        assert(rule_segments_from(v, 2) =~= seq![member_of_rank(v, 2)] + rule_segments_from(v, 3));
    } else if r == 3 {
        assert(rule_segments_from(v, 3) =~= seq![member_of_rank(v, 3)] + rule_segments_from(v, 4));
    } else if r == 4 {
        assert(rule_segments_from(v, 4) =~= seq![member_of_rank(v, 4)] + rule_segments_from(v, 5));
    } else if r == 5 {
        assert(rule_segments_from(v, 5) =~= seq![member_of_rank(v, 5)] + rule_segments_from(v, 6));
    } else {
        assert(rule_segments_from(v, 6) =~= seq![member_of_rank(v, 6)] + rule_segments_from(v, 7));
    }
}

/// Joining a head member with the remaining members.
proof fn lemma_join_head(segs: Seq<Seq<char>>, m: Seq<char>, rest: Seq<Seq<char>>)
    requires
        segs == seq![m] + rest,
    ensures
        rest.len() == 0 ==> spec_join(segs) == m,
        rest.len() > 0 ==> spec_join(segs) == m + seq![','] + spec_join(rest),
{
    if rest.len() == 0 {
        assert(segs.len() == 1);
        assert(segs[0] == m);
    } else {
        assert(segs[0] == m);
        assert(segs.skip(1) =~= rest);
    }
}

/// One present member of rank `r` parses, fills its field, and the walk
/// over the remaining members completes the rule.
#[verifier::rlimit(100)]
#[verifier::spinoff_prover]
proof fn lemma_parse_fields_walk_present(s: Seq<char>, i: int, v: RuleView, r: int)
    requires
        0 <= r <= 6,
        r == 0 ==> v.in_port is Some,
        r == 1 ==> v.out_port is Some,
        r == 2 ==> v.proto is Some,
        r == 3 ==> v.in_ip is Some,
        r == 4 ==> v.out_ip is Some,
        r == 5 ==> v.in_path is Some,
        r == 6 ==> v.out_path is Some,
        matches_at(s, i, spec_join(rule_segments_from(v, r)) + seq!['}']),
    ensures
        parse_fields(s, i, clear_from(v, r)) == Some(
            (v, i + spec_join(rule_segments_from(v, r)).len() + 1),
        ),
    decreases 7 - r, 0int,
{
    let segs = rule_segments_from(v, r);
    let t = spec_join(segs) + seq!['}'];
    lemma_keys_plain();
    lemma_key_ranks();
    let key: Seq<char>;
    let val: Seq<char>;
    if r == 0 {
        key = key_in_port();
        val = spec_dec(v.in_port->0 as nat);
    } else if r == 1 {
        key = key_out_port();
        val = spec_dec(v.out_port->0 as nat);
    } else if r == 2 {
        key = key_proto();
        val = spec_string_json(spec_proto_chars(v.proto->0));
    } else if r == 3 {
        key = key_in_ip();
        val = spec_string_json(v.in_ip->0);
    } else if r == 4 {
        key = key_out_ip();
        val = spec_string_json(v.out_ip->0);
    } else if r == 5 {
        key = key_in_path();
        val = spec_string_json(v.in_path->0);
    } else {
        key = key_out_path();
        val = spec_string_json(v.out_path->0);
    }
    let m = spec_member(key, val);
    assert(m == member_of_rank(v, r));
    let rest = rule_segments_from(v, r + 1);
    lemma_segments_step(v, r);
    lemma_join_head(segs, m, rest);
    let tail: Seq<char>;
    if rest.len() == 0 {
        tail = seq!['}'];
        assert(t =~= m + tail);
    } else {
        tail = seq![','] + (spec_join(rest) + seq!['}']);
        assert(t =~= m + tail);
    }
    assert(key_rank(key) == r);
    lemma_member_shape(s, i, key, val, tail);
    let sk = spec_string_json(key);
    let vp = i + sk.len() + 1;
    let jv = i + m.len();
    lemma_matches_at_index(s, jv, tail, 0);
    assert(s[jv] == tail[0]);
    // the value parses and fills the field of rank r
    let acc = clear_from(v, r);
    let acc2 = clear_from(v, r + 1);
    if r == 0 || r == 1 {
        let n: usize = if r == 0 {
            v.in_port->0
        } else {
            v.out_port->0
        };
        lemma_parse_value_port(s, vp, r, acc, n, tail[0]);
        if r == 0 {
            assert((RuleView { in_port: Some(n), ..acc }) =~= acc2);
        } else {
            assert((RuleView { out_port: Some(n), ..acc }) =~= acc2);
        }
    } else {
        let content: Seq<char> = if r == 2 {
            spec_proto_chars(v.proto->0)
        } else if r == 3 {
            v.in_ip->0
        } else if r == 4 {
            v.out_ip->0
        } else if r == 5 {
            v.in_path->0
        } else {
            v.out_path->0
        };
        if r == 2 {
            lemma_proto_wire_names(v.proto->0, content);
        }
        lemma_parse_value_str(s, vp, r, acc, content);
        if r == 2 {
            assert((RuleView { proto: Some(v.proto->0), ..acc }) =~= acc2);
        } else if r == 3 {
            assert((RuleView { in_ip: Some(content), ..acc }) =~= acc2);
        } else if r == 4 {
            assert((RuleView { out_ip: Some(content), ..acc }) =~= acc2);
        } else if r == 5 {
            assert((RuleView { in_path: Some(content), ..acc }) =~= acc2);
        } else {
            assert((RuleView { out_path: Some(content), ..acc }) =~= acc2);
        }
    }
    assert(parse_value_for(s, vp, r, acc) == Some((acc2, jv)));
    assert(skip_ws(s, jv) == jv);
    if rest.len() == 0 {
        assert(s[jv] == '}');
        // the closing brace ends the object; every higher field is unset
        assert(acc2 =~= v) by {
            if v.out_port is Some && r + 1 <= 1 {
                assert(rest.len() > 0);
            }
            if v.proto is Some && r + 1 <= 2 {
                assert(rest.len() > 0);
            }
            if v.in_ip is Some && r + 1 <= 3 {
                assert(rest.len() > 0);
            }
            if v.out_ip is Some && r + 1 <= 4 {
                assert(rest.len() > 0);
            }
            if v.in_path is Some && r + 1 <= 5 {
                assert(rest.len() > 0);
            }
            if v.out_path is Some && r + 1 <= 6 {
                assert(rest.len() > 0);
            }
        }
        assert(parse_fields(s, i, acc) == Some((v, jv + 1)));
    } else {
        // a comma, then the members of higher ranks
        assert(s[jv] == ',');
        if r == 6 {
            assert(rest =~= Seq::<Seq<char>>::empty());
            assert(false);
        }
        lemma_segments_start_quote(v, r + 1);
        lemma_matches_at_index(s, jv, tail, 1);
        assert(tail[1] == spec_join(rest)[0]);
        assert(s[jv + 1] == '"');
        assert(skip_ws(s, jv + 1) == jv + 1);
        lemma_matches_at_sub(s, jv, tail, 1, tail.len() as int);
        assert(tail.subrange(1, tail.len() as int) =~= spec_join(rest) + seq!['}']);
        assert(i < jv + 1 && jv + 1 <= s.len());
        lemma_parse_fields_walk(s, jv + 1, v, r + 1);
        assert(parse_fields(s, i, acc) == Some((v, i + spec_join(segs).len() + 1)));
    }
}

/// The members of rank `r` and above, standing before a closing brace,
/// parse back as the fields they serialize, filling the rule in.
#[verifier::rlimit(100)]
#[verifier::spinoff_prover]
proof fn lemma_parse_fields_walk(s: Seq<char>, i: int, v: RuleView, r: int)
    requires
        0 <= r <= 7,
        rule_segments_from(v, r).len() > 0,
        matches_at(s, i, spec_join(rule_segments_from(v, r)) + seq!['}']),
    ensures
        parse_fields(s, i, clear_from(v, r)) == Some(
            (v, i + spec_join(rule_segments_from(v, r)).len() + 1),
        ),
    decreases 7 - r, 1int,
{
    if r == 7 {
        assert(rule_segments_from(v, 7) =~= Seq::<Seq<char>>::empty());
        assert(false);
    } else if r == 0 && v.in_port is None {
        assert(rule_segments_from(v, 0) =~= rule_segments_from(v, 1));
        assert(clear_from(v, 0) =~= clear_from(v, 1));
        lemma_parse_fields_walk(s, i, v, 1);
    } else if r == 1 && v.out_port is None {
        assert(rule_segments_from(v, 1) =~= rule_segments_from(v, 2));
        assert(clear_from(v, 1) =~= clear_from(v, 2));
        lemma_parse_fields_walk(s, i, v, 2);
    } else if r == 2 && v.proto is None {
        assert(rule_segments_from(v, 2) =~= rule_segments_from(v, 3));
        assert(clear_from(v, 2) =~= clear_from(v, 3));
        lemma_parse_fields_walk(s, i, v, 3);
    } else if r == 3 && v.in_ip is None {
        assert(rule_segments_from(v, 3) =~= rule_segments_from(v, 4));
        assert(clear_from(v, 3) =~= clear_from(v, 4));
        lemma_parse_fields_walk(s, i, v, 4);
    } else if r == 4 && v.out_ip is None {
        assert(rule_segments_from(v, 4) =~= rule_segments_from(v, 5));
        assert(clear_from(v, 4) =~= clear_from(v, 5));
        lemma_parse_fields_walk(s, i, v, 5);
    } else if r == 5 && v.in_path is None {
        assert(rule_segments_from(v, 5) =~= rule_segments_from(v, 6));
        assert(clear_from(v, 5) =~= clear_from(v, 6));
        lemma_parse_fields_walk(s, i, v, 6);
    } else if r == 6 && v.out_path is None {
        assert(rule_segments_from(v, 6) =~= rule_segments_from(v, 7));
        assert(rule_segments_from(v, 7) =~= Seq::<Seq<char>>::empty());
        assert(false);
    } else {
        lemma_parse_fields_walk_present(s, i, v, r);
    }
}

/// The rule round-trip law: serializing any rule and parsing the result
/// yields the same rule again, whatever mix of port, protocol, address and
/// path fields it carries.
pub proof fn lemma_rule_json_round_trip(v: RuleView)
    ensures
        spec_parse_rule(spec_rule_json(v)) == Some(v),
{
    let segs = rule_segments(v);
    let s = spec_rule_json(v);
    assert(segs =~= rule_segments_from(v, 0));
    assert(s[0] == '{');
    assert(skip_ws(s, 0) == 0);
    if segs.len() == 0 {
        assert(spec_join(segs) == Seq::<char>::empty());
        assert(s.len() == 2);
        assert(s[1] == '}');
        assert(skip_ws(s, 1) == 1);
        assert(empty_rule_view() =~= v) by {
            if v.in_port is Some {
                assert(rule_segments_from(v, 0).len() > 0);
            }
            if v.out_port is Some {
                assert(rule_segments_from(v, 0).len() > 0);
            }
            if v.proto is Some {
                assert(rule_segments_from(v, 0).len() > 0);
            }
            if v.in_ip is Some {
                assert(rule_segments_from(v, 0).len() > 0);
            }
            if v.out_ip is Some {
                assert(rule_segments_from(v, 0).len() > 0);
            }
            if v.in_path is Some {
                assert(rule_segments_from(v, 0).len() > 0);
            }
            if v.out_path is Some {
                assert(rule_segments_from(v, 0).len() > 0);
            }
        }
        assert(parse_rule_at(s, 0) == Some((v, 2int)));
        assert(skip_ws(s, 2) == 2);
    } else {
        lemma_segments_start_quote(v, 0);
        assert(s[1] == spec_join(rule_segments_from(v, 0))[0]);
        assert(s[1] == '"');
        assert(skip_ws(s, 1) == 1);
        assert(s[1] != '}');
        assert(matches_at(s, 1, spec_join(rule_segments_from(v, 0)) + seq!['}'])) by {
            assert(s.subrange(1, s.len() as int) =~= spec_join(rule_segments_from(v, 0))
                + seq!['}']);
        }
        assert(clear_from(v, 0) =~= empty_rule_view());
        lemma_parse_fields_walk(s, 1, v, 0);
        assert(parse_rule_at(s, 0) == Some((v, s.len() as int)));
        assert(skip_ws(s, s.len() as int) == s.len());
    }
}

} // verus!

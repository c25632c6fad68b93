//! The frame-log line format.
//!
//! A recording is UTF-8 text, one JSON object per line:
//! `{"ts":"<timestamp>","raw_frame":"<text>","decoded_event":<text or null>}`.
//! The encoder escapes quotes, backslashes and control characters; the
//! decoder additionally accepts the other standard JSON escapes and
//! `\u00XX` forms for ASCII. Decoding a line the encoder wrote gives the
//! original frame back.

use vstd::prelude::*;
use crate::digits::hex_char;
use crate::strutil::push_char;
use crate::types::RecordedFrame;

verus! {

/// The escape sequence a character contributes inside a JSON string.
pub open spec fn esc_char(c: char) -> Seq<char> {
    if c == '"' {
        seq!['\\', '"']
    } else if c == '\\' {
        seq!['\\', '\\']
    } else if c == '\n' {
        seq!['\\', 'n']
    } else if c == '\r' {
        seq!['\\', 'r']
    } else if c == '\t' {
        seq!['\\', 't']
    } else if (c as u32) < 32 {
        seq!['\\', 'u', '0', '0', hex_char(((c as u32) / 16) as nat), hex_char(((c as u32) % 16) as nat)]
    } else {
        seq![c]
    }
}

/// The JSON-escaped form of a string.
pub open spec fn esc(s: Seq<char>) -> Seq<char>
    decreases s.len(),
{
    if s.len() == 0 {
        Seq::empty()
    } else {
        esc(s.drop_last()) + esc_char(s.last())
    }
}

proof fn lemma_esc_front(s: Seq<char>)
    requires
        s.len() > 0,
    ensures
        esc(s) == esc_char(s[0]) + esc(s.skip(1)),
    decreases s.len(),
{
    if s.len() == 1 {
        assert(s.drop_last() =~= Seq::<char>::empty());
        assert(s.skip(1) =~= Seq::<char>::empty());
        assert(esc(s) =~= esc_char(s[0]) + esc(s.skip(1)));
    } else {
        let dl = s.drop_last();
        lemma_esc_front(dl);
        assert(dl[0] == s[0]);
        assert(s.skip(1).drop_last() =~= dl.skip(1));
        assert(s.skip(1).last() == s.last());
        assert(esc(s.skip(1)) == esc(dl.skip(1)) + esc_char(s.last()));
        assert(esc(s) =~= esc_char(s[0]) + esc(s.skip(1)));
    }
}

fn hex_nibble_char(v: u32) -> (c: char)
    requires
        v < 16,
    ensures
        c == hex_char(v as nat),
{
    if v < 10 {
        (48 + v as u8) as char
    } else if v == 10 {
        'A'
    } else if v == 11 {
        'B'
    } else if v == 12 {
        'C'
    } else if v == 13 {
        'D'
    } else if v == 14 {
        'E'
    } else {
        'F'
    }
}

/// Appends the JSON-escaped form of `s` to `out`.
fn escape_into(out: &mut String, s: &str)
    ensures
        final(out)@ == old(out)@ + esc(s@),
{
    let n = s.unicode_len();
    let ghost base = out@;
    let mut i: usize = 0;
    proof {
        assert(base + esc(s@.take(0)) =~= base);
    }
    while i < n
        invariant
            n == s@.len(),
            i <= n,
            out@ == base + esc(s@.take(i as int)),
        decreases n - i,
    {
        let c = s.get_char(i);
        proof {
            assert(s@.take(i + 1).drop_last() =~= s@.take(i as int));
            assert(s@.take(i + 1).last() == s@[i as int]);
        }
        if c == '"' {
            push_char(out, '\\');
            push_char(out, '"');
        } else if c == '\\' {
            push_char(out, '\\');
            push_char(out, '\\');
        } else if c == '\n' {
            push_char(out, '\\');
            push_char(out, 'n');
        } else if c == '\r' {
            push_char(out, '\\');
            push_char(out, 'r');
        } else if c == '\t' {
            push_char(out, '\\');
            push_char(out, 't');
        } else if (c as u32) < 32 {
            let v = c as u32;
            push_char(out, '\\');
            push_char(out, 'u');
            push_char(out, '0');
            push_char(out, '0');
            push_char(out, hex_nibble_char(v / 16));
            push_char(out, hex_nibble_char(v % 16));
        } else {
            push_char(out, c);
        }
        proof {
            assert(out@ =~= base + esc(s@.take(i + 1)));
        }
        i = i + 1;
    }
    proof {
        assert(s@.take(n as int) =~= s@);
    }
}

/// The character a one-letter escape stands for, if it is one.
pub open spec fn unesc_simple(e: char) -> Option<char> {
    if e == '"' {
        Some('"')
    } else if e == '\\' {
        Some('\\')
    } else if e == '/' {
        Some('/')
    } else if e == 'n' {
        Some('\n')
    } else if e == 'r' {
        Some('\r')
    } else if e == 't' {
        Some('\t')
    } else if e == 'b' {
        Some('\u{0008}')
    } else if e == 'f' {
        Some('\u{000C}')
    } else {
        None
    }
}

/// The value of a hexadecimal digit character, if it is one.
pub open spec fn hex_val_of(c: char) -> Option<u32> {
    let v = c as u32;
    if 48 <= v && v <= 57 {
        Some((v - 48) as u32)
    } else if 65 <= v && v <= 70 {
        Some((v - 55) as u32)
    } else if 97 <= v && v <= 102 {
        Some((v - 87) as u32)
    } else {
        None
    }
}

/// Reads a JSON string body from the front of `s` (the opening quote
/// already consumed): the decoded characters and the count of input
/// characters consumed, including the closing quote. `\uXXXX` escapes
/// are accepted for ASCII values only.
pub open spec fn spec_unesc(s: Seq<char>) -> Option<(Seq<char>, int)>
    decreases s.len(),
{
    if s.len() == 0 {
        None
    } else if s[0] == '"' {
        Some((Seq::empty(), 1))
    } else if s[0] == '\\' {
        if s.len() < 2 {
            None
        } else if s[1] == 'u' {
            if s.len() < 6 {
                None
            } else {
                match (hex_val_of(s[2]), hex_val_of(s[3]), hex_val_of(s[4]), hex_val_of(s[5])) {
                    (Some(a), Some(b), Some(c), Some(d)) => {
                        let v = a * 4096 + b * 256 + c * 16 + d;
                        if v < 128 {
                            match spec_unesc(s.skip(6)) {
                                Some((rest, k)) => Some((seq![((v as u8) as char)] + rest, 6 + k)),
                                None => None,
                            }
                        } else {
                            None
                        }
                    },
                    _ => None,
                }
            }
        } else {
            match unesc_simple(s[1]) {
                Some(c) => match spec_unesc(s.skip(2)) {
                    Some((rest, k)) => Some((seq![c] + rest, 2 + k)),
                    None => None,
                },
                None => None,
            }
        }
    } else if (s[0] as u32) < 32 {
        None
    } else {
        match spec_unesc(s.skip(1)) {
            Some((rest, k)) => Some((seq![s[0]] + rest, 1 + k)),
            None => None,
        }
    }
}

fn hex_nibble_val(c: char) -> (r: Option<u32>)
    ensures
        r == hex_val_of(c),
        r is Some ==> r->Some_0 < 16,
{
    let v = c as u32;
    if 48 <= v && v <= 57 {
        Some(v - 48)
    } else if 65 <= v && v <= 70 {
        Some(v - 55)
    } else if 97 <= v && v <= 102 {
        Some(v - 87)
    } else {
        None
    }
}

/// Reads a JSON string body beginning at `start` in `s` (the opening
/// quote already consumed); returns the decoded text and the index just
/// past the closing quote.
fn parse_string_body(s: &str, start: usize) -> (r: Option<(String, usize)>)
    requires
        start <= s@.len(),
    ensures
        match r {
            Some((body, next)) => {
                &&& spec_unesc(s@.skip(start as int)) is Some
                &&& body@ == spec_unesc(s@.skip(start as int))->Some_0.0
                &&& start + spec_unesc(s@.skip(start as int))->Some_0.1 == next
                &&& start < next <= s@.len()
            },
            None => spec_unesc(s@.skip(start as int)) is None,
        },
{
    let n = s.unicode_len();
    let mut i: usize = start;
    let mut acc = String::new();
    loop
        invariant
            n == s@.len(),
            start <= i <= n,
            (match spec_unesc(s@.skip(i as int)) {
                Some((rest, k)) => spec_unesc(s@.skip(start as int))
                    == Some((acc@ + rest, i - start + k)),
                None => spec_unesc(s@.skip(start as int)) is None,
            }),
        decreases n - i,
    {
        if i == n {
            proof {
                assert(s@.skip(i as int) =~= Seq::<char>::empty());
            }
            return None;
        }
        let c = s.get_char(i);
        proof {
            assert(s@.skip(i as int)[0] == s@[i as int]);
            assert(s@.skip(i as int).len() == n - i);
        }
        if c == '"' {
            proof {
                assert(spec_unesc(s@.skip(i as int)) == Some((Seq::<char>::empty(), 1int)));
                assert(acc@ + Seq::<char>::empty() =~= acc@);
            }
            return Some((acc, i + 1));
        } else if c == '\\' {
            if i + 1 == n {
                return None;
            }
            let e = s.get_char(i + 1);
            proof {
                assert(s@.skip(i as int)[1] == s@[i + 1]);
            }
            if e == 'u' {
                if n - i < 6 {
                    return None;
                }
                proof {
                    assert(s@.skip(i as int)[2] == s@[i + 2]);
                    assert(s@.skip(i as int)[3] == s@[i + 3]);
                    assert(s@.skip(i as int)[4] == s@[i + 4]);
                    assert(s@.skip(i as int)[5] == s@[i + 5]);
                    assert(s@.skip(i as int).skip(6) =~= s@.skip(i + 6));
                }
                let h0 = hex_nibble_val(s.get_char(i + 2));
                let h1 = hex_nibble_val(s.get_char(i + 3));
                let h2 = hex_nibble_val(s.get_char(i + 4));
                let h3 = hex_nibble_val(s.get_char(i + 5));
                match (h0, h1, h2, h3) {
                    (Some(a), Some(b), Some(cc), Some(d)) => {
                        let v = a * 4096 + b * 256 + cc * 16 + d;
                        if v >= 128 {
                            return None;
                        }
                        let decoded = (v as u8) as char;
                        let ghost acc0 = acc@;
                        push_char(&mut acc, decoded);
                        proof {
                            if spec_unesc(s@.skip(i + 6)) is Some {
                                let (rest, k) = spec_unesc(s@.skip(i + 6))->Some_0;
                                assert(acc@ + rest =~= acc0 + (seq![decoded] + rest));
                            }
                        }
                        i = i + 6;
                    },
                    _ => {
                        return None;
                    },
                }
            } else {
                let dec: Option<char> = if e == '"' {
                    Some('"')
                } else if e == '\\' {
                    Some('\\')
                } else if e == '/' {
                    Some('/')
                } else if e == 'n' {
                    Some('\n')
                } else if e == 'r' {
                    Some('\r')
                } else if e == 't' {
                    Some('\t')
                } else if e == 'b' {
                    Some('\u{0008}')
                } else if e == 'f' {
                    Some('\u{000C}')
                } else {
                    None
                };
                match dec {
                    Some(d) => {
                        proof {
                            assert(s@.skip(i as int).skip(2) =~= s@.skip(i + 2));
                        }
                        let ghost acc0 = acc@;
                        push_char(&mut acc, d);
                        proof {
                            if spec_unesc(s@.skip(i + 2)) is Some {
                                let (rest, k) = spec_unesc(s@.skip(i + 2))->Some_0;
                                assert(acc@ + rest =~= acc0 + (seq![d] + rest));
                            }
                        }
                        i = i + 2;
                    },
                    None => {
                        return None;
                    },
                }
            }
        } else if (c as u32) < 32 {
            return None;
        } else {
            proof {
                assert(s@.skip(i as int).skip(1) =~= s@.skip(i + 1));
            }
            let ghost acc0 = acc@;
            push_char(&mut acc, c);
            proof {
                if spec_unesc(s@.skip(i + 1)) is Some {
                    let (rest, k) = spec_unesc(s@.skip(i + 1))->Some_0;
                    assert(acc@ + rest =~= acc0 + (seq![c] + rest));
                }
            }
            i = i + 1;
        }
    }
}

proof fn lemma_hex_roundtrip(v: nat)
    requires
        v < 16,
    ensures
        hex_val_of(hex_char(v)) == Some((v as u32)),
{
}

/// Law: decoding an escaped string consumes it exactly up to the closing
/// quote and yields the original characters, whatever follows.
pub proof fn lemma_unesc_esc(x: Seq<char>, rest: Seq<char>)
    ensures
        spec_unesc(esc(x) + seq!['"'] + rest) == Some((x, esc(x).len() + 1int)),
    decreases x.len(),
{
    let input = esc(x) + seq!['"'] + rest;
    if x.len() == 0 {
        assert(esc(x) =~= Seq::<char>::empty());
        assert(input[0] == '"');
        assert(spec_unesc(input) == Some((Seq::<char>::empty(), 1int)));
        assert(x =~= Seq::<char>::empty());
    } else {
        let c = x[0];
        lemma_esc_front(x);
        let tail_input = esc(x.skip(1)) + seq!['"'] + rest;
        lemma_unesc_esc(x.skip(1), rest);
        assert(input =~= esc_char(c) + tail_input);
        if c == '"' || c == '\\' {
            assert(input[0] == '\\' && input[1] == c);
            assert(input.skip(2) =~= tail_input);
            assert(unesc_simple(c) == Some(c));
            assert(seq![c] + x.skip(1) =~= x);
        } else if c == '\n' {
            assert(input[0] == '\\' && input[1] == 'n');
            assert(input.skip(2) =~= tail_input);
            assert(seq![c] + x.skip(1) =~= x);
        } else if c == '\r' {
            assert(input[0] == '\\' && input[1] == 'r');
            assert(input.skip(2) =~= tail_input);
            assert(seq![c] + x.skip(1) =~= x);
        } else if c == '\t' {
            assert(input[0] == '\\' && input[1] == 't');
            assert(input.skip(2) =~= tail_input);
            assert(seq![c] + x.skip(1) =~= x);
        } else if (c as u32) < 32 {
            let v = c as u32;
            assert(input[0] == '\\' && input[1] == 'u');
            assert(input[2] == '0' && input[3] == '0');
            assert(input[4] == hex_char((v / 16) as nat));
            assert(input[5] == hex_char((v % 16) as nat));
            lemma_hex_roundtrip(0);
            lemma_hex_roundtrip((v / 16) as nat);
            lemma_hex_roundtrip((v % 16) as nat);
            assert(input.skip(6) =~= tail_input);
            let w = 0 * 4096 + 0 * 256 + (v / 16) * 16 + v % 16;
            assert(w == v);
            vstd::utf8::char_u32_cast(c, v);
            assert(((v as u8) as char) == (v as char));
            assert(((v as u8) as char) == c);
            assert(seq![c] + x.skip(1) =~= x);
        } else {
            assert(input[0] == c);
            assert(input.skip(1) =~= tail_input);
            assert(seq![c] + x.skip(1) =~= x);
        }
    }
}

/// The view of an optional string.
pub open spec fn opt_str_view(o: Option<String>) -> Option<Seq<char>> {
    match o {
        Some(s) => Some(s@),
        None => None,
    }
}

/// The log line for one recorded frame.
pub open spec fn spec_frame_line(
    ts: Seq<char>,
    raw: Seq<char>,
    de: Option<Seq<char>>,
) -> Seq<char> {
    "{\"ts\":\""@ + esc(ts) + "\",\"raw_frame\":\""@ + esc(raw) + "\",\"decoded_event\":"@ + (
    match de {
        Some(d) => "\""@ + esc(d) + "\""@,
        None => "null"@,
    }) + "}"@
}

/// Renders one recorded frame as its log line (without the newline).
pub fn encode_recorded_line(f: &RecordedFrame) -> (r: String)
    ensures
        r@ == spec_frame_line(f.ts_text@, f.raw_frame@, opt_str_view(f.decoded_event)),
{
    let mut out = String::new();
    out.append("{\"ts\":\"");
    escape_into(&mut out, f.ts_text.as_str());
    out.append("\",\"raw_frame\":\"");
    escape_into(&mut out, f.raw_frame.as_str());
    out.append("\",\"decoded_event\":");
    match &f.decoded_event {
        Some(d) => {
            out.append("\"");
            escape_into(&mut out, d.as_str());
            out.append("\"");
        },
        None => {
            out.append("null");
        },
    }
    out.append("}");
    proof {
        assert(out@ =~= spec_frame_line(f.ts_text@, f.raw_frame@, opt_str_view(f.decoded_event)));
    }
    out
}

/// Whether `p` occurs in `s` at position `i`.
pub open spec fn lit_at(s: Seq<char>, i: int, p: Seq<char>) -> bool {
    0 <= i && i + p.len() <= s.len() && s.subrange(i, i + p.len()) == p
}

/// Reads a whole log line: trims it, then expects the exact object shape
/// the encoder writes (`ts`, `raw_frame`, `decoded_event`, in that order).
pub open spec fn spec_parse_line(s: Seq<char>) -> Option<(Seq<char>, Seq<char>, Option<Seq<char>>)> {
    let t = crate::strutil::spec_trim(s);
    if !lit_at(t, 0, "{\"ts\":\""@) {
        None
    } else {
        match spec_unesc(t.skip(7)) {
            None => None,
            Some((ts, k1)) => {
                let i = 7 + k1;
                if !lit_at(t, i, ",\"raw_frame\":\""@) {
                    None
                } else {
                    match spec_unesc(t.skip(i + 14)) {
                        None => None,
                        Some((raw, k2)) => {
                            let j = i + 14 + k2;
                            if !lit_at(t, j, ",\"decoded_event\":"@) {
                                None
                            } else {
                                let k = j + 17;
                                if t.len() == k + 5 && lit_at(t, k, "null}"@) {
                                    Some((ts, raw, None))
                                } else if k < t.len() && t[k] == '"' {
                                    match spec_unesc(t.skip(k + 1)) {
                                        None => None,
                                        Some((de, k3)) => {
                                            let l = k + 1 + k3;
                                            if t.len() == l + 1 && t[l] == '}' {
                                                Some((ts, raw, Some(de)))
                                            } else {
                                                None
                                            }
                                        },
                                    }
                                } else {
                                    None
                                }
                            }
                        },
                    }
                }
            },
        }
    }
}

/// Whether the literal `lit` occurs at position `i` of `s`.
fn has_lit_at(s: &str, n: usize, i: usize, lit: &str) -> (r: bool)
    requires
        n == s@.len(),
        i <= n,
    ensures
        r == lit_at(s@, i as int, lit@),
{
    let m = lit.unicode_len();
    if m > n - i {
        return false;
    }
    let part = s.substring_char(i, i + m);
    crate::strutil::str_eq(part, lit)
}

/// Parses one log line into a recorded frame; `None` when the line does
/// not have the recorder's shape.
pub fn parse_recorded_line(line: &str) -> (r: Option<RecordedFrame>)
    ensures
        match r {
            Some(f) => {
                &&& spec_parse_line(line@) is Some
                &&& {
                    let (ts, raw, de) = spec_parse_line(line@)->Some_0;
                    f.ts_text@ == ts && f.raw_frame@ == raw && opt_str_view(f.decoded_event) == de
                }
            },
            None => spec_parse_line(line@) is None,
        },
{
    let t = crate::strutil::trim(line);
    let n = t.unicode_len();
    if !has_lit_at(t, n, 0, "{\"ts\":\"") {
        return None;
    }
    proof {
        reveal_strlit("{\"ts\":\"");
    }
    let (ts, i) = match parse_string_body(t, 7) {
        Some(x) => x,
        None => {
            return None;
        },
    };
    if !has_lit_at(t, n, i, ",\"raw_frame\":\"") {
        return None;
    }
    proof {
        reveal_strlit(",\"raw_frame\":\"");
    }
    let (raw, j) = match parse_string_body(t, i + 14) {
        Some(x) => x,
        None => {
            return None;
        },
    };
    if !has_lit_at(t, n, j, ",\"decoded_event\":") {
        return None;
    }
    proof {
        reveal_strlit(",\"decoded_event\":");
    }
    let k = j + 17;
    if n - k == 5 && has_lit_at(t, n, k, "null}") {
        return Some(RecordedFrame { ts_text: ts, raw_frame: raw, decoded_event: None });
    }
    if k < n && t.get_char(k) == '"' {
        proof {
            reveal_strlit("null}");
        }
        let (de, l) = match parse_string_body(t, k + 1) {
            Some(x) => x,
            None => {
                return None;
            },
        };
        if n - l == 1 && t.get_char(l) == '}' {
            return Some(RecordedFrame { ts_text: ts, raw_frame: raw, decoded_event: Some(de) });
        }
        return None;
    }
    proof {
        reveal_strlit("null}");
    }
    None
}

/// Law: parsing a line the encoder wrote yields exactly the encoded
/// frame. Together with the replayer's pass-through contract this gives
/// the record/replay round trip.
#[verifier::rlimit(100)]
pub proof fn lemma_line_round_trip(ts: Seq<char>, raw: Seq<char>, de: Option<Seq<char>>)
    ensures
        spec_parse_line(spec_frame_line(ts, raw, de)) == Some((ts, raw, de)),
{
    reveal_strlit("{\"ts\":\"");
    reveal_strlit("\",\"raw_frame\":\"");
    reveal_strlit("\",\"decoded_event\":");
    reveal_strlit(",\"raw_frame\":\"");
    reveal_strlit(",\"decoded_event\":");
    reveal_strlit("null");
    reveal_strlit("null}");
    reveal_strlit("\"");
    reveal_strlit("}");
    let line = spec_frame_line(ts, raw, de);
    let de_part: Seq<char> = match de {
        Some(d) => "\""@ + esc(d) + "\""@,
        None => "null"@,
    };
    assert(line =~= "{\"ts\":\""@ + esc(ts) + "\",\"raw_frame\":\""@ + esc(raw)
        + "\",\"decoded_event\":"@ + de_part + "}"@);
    // The line needs no trimming: it starts with a brace and ends with one.
    assert(line[0] == '{');
    assert(!crate::strutil::is_ws(line[0]));
    assert(crate::strutil::trim_front(line) == line);
    assert(line.last() == '}');
    assert(!crate::strutil::is_ws(line.last()));
    assert(crate::strutil::trim_back(line) == line);
    let t = crate::strutil::spec_trim(line);
    assert(t == line);
    // The ts string.
    assert(lit_at(t, 0, "{\"ts\":\""@)) by {
        assert(t.subrange(0, 7) =~= "{\"ts\":\""@);
    }
    let rest1 = ",\"raw_frame\":\""@ + esc(raw) + "\",\"decoded_event\":"@ + de_part + "}"@;
    assert(t.skip(7) =~= esc(ts) + seq!['"'] + rest1);
    lemma_unesc_esc(ts, rest1);
    assert(spec_unesc(t.skip(7)) == Some((ts, esc(ts).len() + 1int)));
    let i = 7 + esc(ts).len() + 1int;
    // The raw_frame string.
    assert(lit_at(t, i, ",\"raw_frame\":\""@)) by {
        assert(t.subrange(i, i + 14) =~= ",\"raw_frame\":\""@);
    }
    let rest2 = ",\"decoded_event\":"@ + de_part + "}"@;
    assert(t.skip(i + 14) =~= esc(raw) + seq!['"'] + rest2);
    lemma_unesc_esc(raw, rest2);
    let j = i + 14 + esc(raw).len() + 1int;
    // The decoded_event tail.
    assert(lit_at(t, j, ",\"decoded_event\":"@)) by {
        assert(t.subrange(j, j + 17) =~= ",\"decoded_event\":"@);
    }
    let k = j + 17;
    assert(t.skip(k) =~= de_part + "}"@);
    match de {
        None => {
            assert(t.len() == k + 5);
            assert(lit_at(t, k, "null}"@)) by {
                assert(t.subrange(k, k + 5) =~= "null}"@);
            }
            assert(spec_parse_line(line) == Some((ts, raw, None::<Seq<char>>)));
        },
        Some(d) => {
            assert(t[k] == '"');
            assert(t.len() != k + 5 || t[k + 4] == '}' || true);
            // The null branch is not taken: the tail starts with a quote.
            if t.len() == k + 5 && lit_at(t, k, "null}"@) {
                assert(t.subrange(k, k + 5)[0] == 'n');
                assert(false);
            }
            assert(t.skip(k + 1) =~= esc(d) + seq!['"'] + "}"@);
            lemma_unesc_esc(d, "}"@);
            let l = k + 1 + esc(d).len() + 1int;
            assert(t.len() == l + 1);
            assert(t[l] == '}');
            assert(spec_parse_line(line) == Some((ts, raw, Some(d))));
        },
    }
}

} // verus!

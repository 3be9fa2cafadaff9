//! The wire codec: one command or one response per message, written as a
//! tagged JSON value. Variants without fields are written as a bare tagged
//! string, variants with fields as an object whose single member is the tag.
//!
//! Each side of the protocol sends exactly one encoded message per transport
//! write, and a decoder reads exactly one message from what one read handed
//! it: a message must not be split over two reads, and two messages must not
//! arrive in one.

use vstd::prelude::*;

use crate::json::{
    chars_vec, dec_digits, expect_str, is_digit, lemma_parse_lit_concat, lemma_parse_nat_dec,
    lemma_parse_quoted_quoted, lemma_parse_quoted_shrinks, parse_lit, parse_nat, parse_quoted,
    parse_quoted_exec, parse_u64_exec, push_dec_u64, push_quoted, push_str_chars, quoted,
    string_from_chars, suffix,
};
use crate::protocol::{CommandModel, DatabaseCommand, DatabaseResponse, ResponseModel};

verus! {

// --- commands ---

/// The message text for a command.
pub open spec fn command_text(c: CommandModel) -> Seq<char> {
    match c {
        CommandModel::Get { key } => "{\"Get\":{\"key\":"@ + quoted(key) + "}}"@,
        CommandModel::Put { key, value } => "{\"Set\":{\"key\":"@ + quoted(key) + ",\"value\":"@
            + quoted(value) + "}}"@,
        CommandModel::Delete { key } => "{\"Delete\":{\"key\":"@ + quoted(key) + "}}"@,
        CommandModel::Exists { key } => "{\"Exists\":{\"key\":"@ + quoted(key) + "}}"@,
        CommandModel::Keys => "\"Keys\""@,
        CommandModel::Len => "\"Len\""@,
        CommandModel::Clear => "\"Clear\""@,
        CommandModel::Ping => "\"Ping\""@,
    }
}

/// Parse the tail of a one-field object: the field's string, then the two
/// closing braces, then nothing.
pub open spec fn parse_key_obj(s: Seq<char>) -> Option<Seq<char>> {
    match parse_quoted(s) {
        Some((k, r)) => if r == "}}"@ {
            Some(k)
        } else {
            None
        },
        None => None,
    }
}

/// Parse one whole command message; anything else is `None`.
pub open spec fn parse_command(s: Seq<char>) -> Option<CommandModel> {
    if s.len() == 0 {
        None
    } else if s[0] == '"' {
        if s == "\"Keys\""@ {
            Some(CommandModel::Keys)
        } else if s == "\"Len\""@ {
            Some(CommandModel::Len)
        } else if s == "\"Clear\""@ {
            Some(CommandModel::Clear)
        } else if s == "\"Ping\""@ {
            Some(CommandModel::Ping)
        } else {
            None
        }
    } else {
        match parse_lit(s, "{\"Get\":{\"key\":"@) {
            Some(r) => match parse_key_obj(r) {
                Some(k) => Some(CommandModel::Get { key: k }),
                None => None,
            },
            None => match parse_lit(s, "{\"Set\":{\"key\":"@) {
                Some(r) => match parse_quoted(r) {
                    Some((k, r1)) => match parse_lit(r1, ",\"value\":"@) {
                        Some(r2) => match parse_quoted(r2) {
                            Some((v, r3)) => if r3 == "}}"@ {
                                Some(CommandModel::Put { key: k, value: v })
                            } else {
                                None
                            },
                            None => None,
                        },
                        None => None,
                    },
                    None => None,
                },
                None => match parse_lit(s, "{\"Delete\":{\"key\":"@) {
                    Some(r) => match parse_key_obj(r) {
                        Some(k) => Some(CommandModel::Delete { key: k }),
                        None => None,
                    },
                    None => match parse_lit(s, "{\"Exists\":{\"key\":"@) {
                        Some(r) => match parse_key_obj(r) {
                            Some(k) => Some(CommandModel::Exists { key: k }),
                            None => None,
                        },
                        None => None,
                    },
                },
            },
        }
    }
}

/// Write the message for a command.
pub fn encode_command(command: &DatabaseCommand) -> (r: String)
    ensures
        r@ == command_text(command@),
{
    let mut out: Vec<char> = Vec::new();
    match command {
        DatabaseCommand::Get { key } => {
            push_str_chars(&mut out, "{\"Get\":{\"key\":");
            push_quoted(&mut out, key.as_str());
            push_str_chars(&mut out, "}}");
        }
        DatabaseCommand::Put { key, value } => {
            push_str_chars(&mut out, "{\"Set\":{\"key\":");
            push_quoted(&mut out, key.as_str());
            push_str_chars(&mut out, ",\"value\":");
            push_quoted(&mut out, value.as_str());
            push_str_chars(&mut out, "}}");
        }
        DatabaseCommand::Delete { key } => {
            push_str_chars(&mut out, "{\"Delete\":{\"key\":");
            push_quoted(&mut out, key.as_str());
            push_str_chars(&mut out, "}}");
        }
        DatabaseCommand::Exists { key } => {
            push_str_chars(&mut out, "{\"Exists\":{\"key\":");
            push_quoted(&mut out, key.as_str());
            push_str_chars(&mut out, "}}");
        }
        DatabaseCommand::Keys => push_str_chars(&mut out, "\"Keys\""),
        DatabaseCommand::Len => push_str_chars(&mut out, "\"Len\""),
        DatabaseCommand::Clear => push_str_chars(&mut out, "\"Clear\""),
        DatabaseCommand::Ping => push_str_chars(&mut out, "\"Ping\""),
    }
    proof {
        assert(out@ =~= command_text(command@));
    }
    string_from_chars(&out)
}

/// Whether the input from the position on is exactly the given text.
fn rest_is(s: &Vec<char>, pos: usize, lit: &str) -> (b: bool)
    requires
        pos <= s@.len(),
    ensures
        b == (suffix(s@, pos as int) == lit@),
{
    match expect_str(s, pos, lit) {
        Some(j) => {
            let b = j == s.len();
            proof {
                let su = suffix(s@, pos as int);
                assert(su.subrange(0, lit@.len() as int) == lit@);
                assert(suffix(s@, j as int).len() == su.len() - lit@.len());
                if b {
                    assert(su =~= lit@);
                } else {
                    assert(su.len() != lit@.len());
                }
            }
            b
        }
        None => {
            proof {
                let su = suffix(s@, pos as int);
                if su == lit@ {
                    assert(su.subrange(0, lit@.len() as int) =~= lit@);
                    assert(false);
                }
            }
            false
        }
    }
}

/// Parse the tail of a one-field object at the given position.
fn parse_key_obj_exec(s: &Vec<char>, pos: usize) -> (r: Option<String>)
    requires
        pos <= s@.len(),
    ensures
        match r {
            Some(k) => parse_key_obj(suffix(s@, pos as int)) == Some(k@),
            None => parse_key_obj(suffix(s@, pos as int)) is None,
        },
{
    match parse_quoted_exec(s, pos) {
        Some((k, j)) => {
            if rest_is(s, j, "}}") {
                Some(string_from_chars(&k))
            } else {
                None
            }
        }
        None => None,
    }
}

/// Read one command message; `None` where the text is not one.
pub fn decode_command(text: &str) -> (r: Option<DatabaseCommand>)
    ensures
        match r {
            Some(c) => parse_command(text@) == Some(c@),
            None => parse_command(text@) is None,
        },
{
    let s = chars_vec(text);
    proof {
        assert(suffix(s@, 0) =~= s@);
    }
    if s.len() == 0 {
        return None;
    }
    if s[0] == '"' {
        if rest_is(&s, 0, "\"Keys\"") {
            Some(DatabaseCommand::Keys)
        } else if rest_is(&s, 0, "\"Len\"") {
            Some(DatabaseCommand::Len)
        } else if rest_is(&s, 0, "\"Clear\"") {
            Some(DatabaseCommand::Clear)
        } else if rest_is(&s, 0, "\"Ping\"") {
            Some(DatabaseCommand::Ping)
        } else {
            None
        }
    } else {
        if let Some(j) = expect_str(&s, 0, "{\"Get\":{\"key\":") {
            match parse_key_obj_exec(&s, j) {
                Some(key) => Some(DatabaseCommand::Get { key }),
                None => None,
            }
        } else if let Some(j) = expect_str(&s, 0, "{\"Set\":{\"key\":") {
            match parse_quoted_exec(&s, j) {
                Some((k, j1)) => {
                    if let Some(j2) = expect_str(&s, j1, ",\"value\":") {
                        match parse_quoted_exec(&s, j2) {
                            Some((v, j3)) => {
                                if rest_is(&s, j3, "}}") {
                                    Some(DatabaseCommand::Put {
                                        key: string_from_chars(&k),
                                        value: string_from_chars(&v),
                                    })
                                } else {
                                    None
                                }
                            }
                            None => None,
                        }
                    } else {
                        None
                    }
                }
                None => None,
            }
        } else if let Some(j) = expect_str(&s, 0, "{\"Delete\":{\"key\":") {
            match parse_key_obj_exec(&s, j) {
                Some(key) => Some(DatabaseCommand::Delete { key }),
                None => None,
            }
        } else if let Some(j) = expect_str(&s, 0, "{\"Exists\":{\"key\":") {
            match parse_key_obj_exec(&s, j) {
                Some(key) => Some(DatabaseCommand::Exists { key }),
                None => None,
            }
        } else {
            None
        }
    }
}

// --- responses ---

/// The list of keys as the message writes it, separated by commas.
pub open spec fn keys_array_text(ks: Seq<Seq<char>>) -> Seq<char>
    decreases ks.len(),
{
    if ks.len() == 0 {
        Seq::empty()
    } else if ks.len() == 1 {
        quoted(ks[0])
    } else {
        quoted(ks[0]) + seq![','] + keys_array_text(ks.drop_first())
    }
}

/// The message text for a response. A count is never negative, so the cast
/// to a whole number below loses nothing on any response the library builds.
pub open spec fn response_text(m: ResponseModel) -> Seq<char> {
    match m {
        ResponseModel::Success { value } => match value {
            Some(v) => "{\"Ok\":{\"value\":"@ + quoted(v) + "}}"@,
            None => "{\"Ok\":{\"value\":null}}"@,
        },
        ResponseModel::Error { message } => "{\"Error\":{\"message\":"@ + quoted(message) + "}}"@,
        ResponseModel::Keys { keys } => "{\"Keys\":{\"keys\":["@ + keys_array_text(keys) + "]}}"@,
        ResponseModel::Len { count } => "{\"Len\":{\"count\":"@ + dec_digits(count as nat) + "}}"@,
        ResponseModel::Pong => "\"Pong\""@,
    }
}

/// Parse one or more comma-separated keys.
pub open spec fn parse_keys_array(s: Seq<char>) -> Option<(Seq<Seq<char>>, Seq<char>)>
    decreases s.len(),
    via parse_keys_array_dec
{
    match parse_quoted(s) {
        Some((k, s1)) => if s1.len() > 0 && s1[0] == ',' {
            match parse_keys_array(s1.drop_first()) {
                Some((ks, s2)) => Some((seq![k] + ks, s2)),
                None => None,
            }
        } else {
            Some((seq![k], s1))
        },
        None => None,
    }
}

#[via_fn]
proof fn parse_keys_array_dec(s: Seq<char>) {
    lemma_parse_quoted_shrinks(s);
}

/// Parse one whole response message; anything else is `None`.
pub open spec fn parse_response(s: Seq<char>) -> Option<ResponseModel> {
    if s.len() == 0 {
        None
    } else if s[0] == '"' {
        if s == "\"Pong\""@ {
            Some(ResponseModel::Pong)
        } else {
            None
        }
    } else {
        match parse_lit(s, "{\"Ok\":{\"value\":"@) {
            Some(r) => if r == "null}}"@ {
                Some(ResponseModel::Success { value: None })
            } else {
                match parse_quoted(r) {
                    Some((v, r2)) => if r2 == "}}"@ {
                        Some(ResponseModel::Success { value: Some(v) })
                    } else {
                        None
                    },
                    None => None,
                }
            },
            None => match parse_lit(s, "{\"Error\":{\"message\":"@) {
                Some(r) => match parse_quoted(r) {
                    Some((v, r2)) => if r2 == "}}"@ {
                        Some(ResponseModel::Error { message: v })
                    } else {
                        None
                    },
                    None => None,
                },
                None => match parse_lit(s, "{\"Keys\":{\"keys\":["@) {
                    Some(r) => if r.len() > 0 && r[0] == ']' {
                        if r == "]}}"@ {
                            Some(ResponseModel::Keys { keys: Seq::empty() })
                        } else {
                            None
                        }
                    } else {
                        match parse_keys_array(r) {
                            Some((ks, r2)) => if r2 == "]}}"@ {
                                Some(ResponseModel::Keys { keys: ks })
                            } else {
                                None
                            },
                            None => None,
                        }
                    },
                    None => match parse_lit(s, "{\"Len\":{\"count\":"@) {
                        Some(r) => match parse_nat(r) {
                            Some((n, r2)) => if r2 == "}}"@ {
                                Some(ResponseModel::Len { count: n as int })
                            } else {
                                None
                            },
                            None => None,
                        },
                        None => None,
                    },
                },
            },
        }
    }
}

/// Writing one more key appends it, behind a comma where keys came before.
proof fn lemma_keys_array_push(ks: Seq<Seq<char>>, k: Seq<char>)
    ensures
        keys_array_text(ks.push(k)) == if ks.len() == 0 {
            quoted(k)
        } else {
            keys_array_text(ks) + seq![','] + quoted(k)
        },
    decreases ks.len(),
{
    if ks.len() == 0 {
        assert(ks.push(k)[0] == k);
        assert(ks.push(k).len() == 1);
    } else {
        assert(ks.push(k)[0] == ks[0]);
        assert(ks.push(k).drop_first() =~= ks.drop_first().push(k));
        lemma_keys_array_push(ks.drop_first(), k);
        assert(keys_array_text(ks.push(k)) =~= keys_array_text(ks) + seq![','] + quoted(k));
    }
}

/// The keys as written, followed by anything that does not begin with a
/// comma, parse back to the keys and that remainder.
proof fn lemma_keys_array_parses(ks: Seq<Seq<char>>, rest: Seq<char>)
    requires
        ks.len() > 0,
        rest.len() > 0,
        rest[0] != ',',
    ensures
        parse_keys_array(keys_array_text(ks) + rest) == Some((ks, rest)),
    decreases ks.len(),
{
    let s = keys_array_text(ks) + rest;
    if ks.len() == 1 {
        assert(s =~= quoted(ks[0]) + rest);
        lemma_parse_quoted_quoted(ks[0], rest);
        assert(seq![ks[0]] =~= ks);
    } else {
        let tail_ks = ks.drop_first();
        let mid = seq![','] + keys_array_text(tail_ks) + rest;
        assert(s =~= quoted(ks[0]) + mid);
        lemma_parse_quoted_quoted(ks[0], mid);
        assert(mid[0] == ',');
        assert(mid.drop_first() =~= keys_array_text(tail_ks) + rest);
        lemma_keys_array_parses(tail_ks, rest);
        assert(seq![ks[0]] + tail_ks =~= ks);
    }
}

/// Write the message for a response.
pub fn encode_response(response: &DatabaseResponse) -> (r: String)
    ensures
        r@ == response_text(response@),
{
    let mut out: Vec<char> = Vec::new();
    match response {
        DatabaseResponse::Success { value } => {
            push_str_chars(&mut out, "{\"Ok\":{\"value\":");
            match value {
                Some(v) => push_quoted(&mut out, v.as_str()),
                None => push_str_chars(&mut out, "null"),
            }
            push_str_chars(&mut out, "}}");
            proof {
                if response@->Success_value is None {
                    reveal_strlit("{\"Ok\":{\"value\":");
                    reveal_strlit("null");
                    reveal_strlit("}}");
                    reveal_strlit("{\"Ok\":{\"value\":null}}");
                    assert(out@ =~= response_text(response@));
                }
            }
        }
        DatabaseResponse::Error { message } => {
            push_str_chars(&mut out, "{\"Error\":{\"message\":");
            push_quoted(&mut out, message.as_str());
            push_str_chars(&mut out, "}}");
        }
        DatabaseResponse::Keys { keys } => {
            push_str_chars(&mut out, "{\"Keys\":{\"keys\":[");
            let ghost all = keys.deep_view();
            let n = keys.len();
            let mut i: usize = 0;
            proof {
                assert(all.subrange(0, 0) =~= Seq::<Seq<char>>::empty());
            }
            while i < n
                invariant
                    n == keys@.len(),
                    all == keys.deep_view(),
                    all.len() == n,
                    i <= n,
                    forall|j: int| 0 <= j < n ==> all[j] == keys@[j]@,
                    out@ == "{\"Keys\":{\"keys\":["@ + keys_array_text(all.subrange(0, i as int)),
                decreases n - i,
            {
                let ghost pre = all.subrange(0, i as int);
                if i > 0 {
                    out.push(',');
                }
                push_quoted(&mut out, keys[i].as_str());
                proof {
                    lemma_keys_array_push(pre, all[i as int]);
                    assert(pre.push(all[i as int]) =~= all.subrange(0, i + 1 as int));
                    assert(out@ =~= "{\"Keys\":{\"keys\":["@ + keys_array_text(
                        all.subrange(0, i + 1 as int),
                    ));
                }
                i = i + 1;
            }
            proof {
                assert(all.subrange(0, all.len() as int) =~= all);
            }
            push_str_chars(&mut out, "]}}");
        }
        DatabaseResponse::Len { count } => {
            push_str_chars(&mut out, "{\"Len\":{\"count\":");
            let c: u64 = (*count) as u64;
            push_dec_u64(&mut out, c);
            push_str_chars(&mut out, "}}");
            proof {
                assert(c as nat == (*count) as nat);
            }
        }
        DatabaseResponse::Pong => push_str_chars(&mut out, "\"Pong\""),
    }
    proof {
        assert(out@ =~= response_text(response@));
    }
    string_from_chars(&out)
}

/// Parse one or more comma-separated keys at the given position.
fn parse_keys_array_exec(s: &Vec<char>, pos: usize) -> (r: Option<(Vec<String>, usize)>)
    requires
        pos <= s@.len(),
    ensures
        match r {
            Some(p) => pos < p.1 <= s@.len() && parse_keys_array(suffix(s@, pos as int)) == Some(
                (p.0.deep_view(), suffix(s@, p.1 as int)),
            ),
            None => parse_keys_array(suffix(s@, pos as int)) is None,
        },
    decreases s@.len() - pos,
{
    let (k, p1) = match parse_quoted_exec(s, pos) {
        Some(p) => p,
        None => {
            return None;
        },
    };
    let key = string_from_chars(&k);
    let more = p1 < s.len() && s[p1] == ',';
    proof {
        if p1 < s@.len() {
            assert(suffix(s@, p1 as int)[0] == s@[p1 as int]);
        } else {
            assert(suffix(s@, p1 as int).len() == 0);
        }
    }
    if more {
        proof {
            assert(suffix(s@, p1 as int).drop_first() =~= suffix(s@, p1 + 1));
        }
        match parse_keys_array_exec(s, p1 + 1) {
            Some((mut ks, j)) => {
                let ghost ks0 = ks.deep_view();
                ks.insert(0, key);
                proof {
                    assert(ks.deep_view() =~= seq![k@] + ks0);
                }
                Some((ks, j))
            }
            None => None,
        }
    } else {
        let mut ks: Vec<String> = Vec::new();
        ks.push(key);
        proof {
            assert(ks.deep_view() =~= seq![k@]);
        }
        Some((ks, p1))
    }
}

/// Read one response message; `None` where the text is not one, or where a
/// count does not fit the machine.
pub fn decode_response(text: &str) -> (r: Option<DatabaseResponse>)
    ensures
        match r {
            Some(resp) => parse_response(text@) == Some(resp@),
            None => match parse_response(text@) {
                Some(m) => m matches ResponseModel::Len { count } && count > usize::MAX,
                None => true,
            },
        },
{
    let s = chars_vec(text);
    proof {
        assert(suffix(s@, 0) =~= s@);
    }
    if s.len() == 0 {
        return None;
    }
    if s[0] == '"' {
        if rest_is(&s, 0, "\"Pong\"") {
            Some(DatabaseResponse::Pong)
        } else {
            None
        }
    } else {
        if let Some(j) = expect_str(&s, 0, "{\"Ok\":{\"value\":") {
            if rest_is(&s, j, "null}}") {
                Some(DatabaseResponse::Success { value: None })
            } else {
                match parse_quoted_exec(&s, j) {
                    Some((v, j1)) => {
                        if rest_is(&s, j1, "}}") {
                            Some(DatabaseResponse::Success {
                                value: Some(string_from_chars(&v)),
                            })
                        } else {
                            None
                        }
                    }
                    None => None,
                }
            }
        } else if let Some(j) = expect_str(&s, 0, "{\"Error\":{\"message\":") {
            match parse_quoted_exec(&s, j) {
                Some((v, j1)) => {
                    if rest_is(&s, j1, "}}") {
                        Some(DatabaseResponse::Error { message: string_from_chars(&v) })
                    } else {
                        None
                    }
                }
                None => None,
            }
        } else if let Some(j) = expect_str(&s, 0, "{\"Keys\":{\"keys\":[") {
            let ghost rsuf = suffix(s@, j as int);
            let empty_list = j < s.len() && s[j] == ']';
            proof {
                if j < s@.len() {
                    assert(rsuf[0] == s@[j as int]);
                } else {
                    assert(rsuf.len() == 0);
                }
            }
            if empty_list {
                if rest_is(&s, j, "]}}") {
                    let ks: Vec<String> = Vec::new();
                    proof {
                        assert(ks.deep_view() =~= Seq::<Seq<char>>::empty());
                    }
                    Some(DatabaseResponse::Keys { keys: ks })
                } else {
                    None
                }
            } else {
                match parse_keys_array_exec(&s, j) {
                    Some((ks, j1)) => {
                        if rest_is(&s, j1, "]}}") {
                            Some(DatabaseResponse::Keys { keys: ks })
                        } else {
                            None
                        }
                    }
                    None => None,
                }
            }
        } else if let Some(j) = expect_str(&s, 0, "{\"Len\":{\"count\":") {
            match parse_u64_exec(&s, j) {
                Some((n, j1)) => {
                    if rest_is(&s, j1, "}}") {
                        if n > (usize::MAX as u64) {
                            return None;
                        }
                        Some(DatabaseResponse::Len { count: n as usize })
                    } else {
                        None
                    }
                }
                None => None,
            }
        } else {
            None
        }
    }
}

/// Round trip of the response codec: the message written for any response a
/// server can build (its count fits the machine) parses back to exactly that
/// response.
pub proof fn lemma_response_round_trip(m: ResponseModel)
    requires
        m matches ResponseModel::Len { count } ==> 0 <= count,
    ensures
        parse_response(response_text(m)) == Some(m),
{
    reveal_strlit("{\"Ok\":{\"value\":");
    reveal_strlit("{\"Error\":{\"message\":");
    reveal_strlit("{\"Keys\":{\"keys\":[");
    reveal_strlit("{\"Len\":{\"count\":");
    reveal_strlit("{\"Ok\":{\"value\":null}}");
    reveal_strlit("null}}");
    reveal_strlit("}}");
    reveal_strlit("]}}");
    reveal_strlit("\"Pong\"");
    let s = response_text(m);
    match m {
        ResponseModel::Success { value } => {
            match value {
                Some(v) => {
                    let tail = quoted(v) + "}}"@;
                    assert(s =~= "{\"Ok\":{\"value\":"@ + tail);
                    lemma_parse_lit_concat("{\"Ok\":{\"value\":"@, tail);
                    assert(s[0] == '{');
                    assert(tail[0] == '"');
                    assert("null}}"@[0] == 'n');
                    assert(tail != "null}}"@);
                    lemma_parse_quoted_quoted(v, "}}"@);
                }
                None => {
                    assert(s[0] == '{');
                    assert(s =~= "{\"Ok\":{\"value\":"@ + "null}}"@);
                    lemma_parse_lit_concat("{\"Ok\":{\"value\":"@, "null}}"@);
                }
            }
        }
        ResponseModel::Error { message } => {
            let tail = quoted(message) + "}}"@;
            assert(s =~= "{\"Error\":{\"message\":"@ + tail);
            lemma_parse_lit_concat("{\"Error\":{\"message\":"@, tail);
            assert(s[0] == '{');
            assert(s[2] == 'E');
            assert(parse_lit(s, "{\"Ok\":{\"value\":"@) is None) by {
                if parse_lit(s, "{\"Ok\":{\"value\":"@) is Some {
                    assert(s.subrange(0, 15)[2] == 'O');
                }
            }
            lemma_parse_quoted_quoted(message, "}}"@);
        }
        ResponseModel::Keys { keys } => {
            let tail = keys_array_text(keys) + "]}}"@;
            assert(s =~= "{\"Keys\":{\"keys\":["@ + tail);
            lemma_parse_lit_concat("{\"Keys\":{\"keys\":["@, tail);
            assert(s[0] == '{');
            assert(s[2] == 'K');
            assert(parse_lit(s, "{\"Ok\":{\"value\":"@) is None) by {
                if parse_lit(s, "{\"Ok\":{\"value\":"@) is Some {
                    assert(s.subrange(0, 15)[2] == 'O');
                }
            }
            assert(parse_lit(s, "{\"Error\":{\"message\":"@) is None) by {
                if parse_lit(s, "{\"Error\":{\"message\":"@) is Some {
                    assert(s.subrange(0, 20)[2] == 'E');
                }
            }
            if keys.len() == 0 {
                assert(tail =~= "]}}"@);
                assert(tail[0] == ']');
            } else {
                assert(quoted(keys[0])[0] == '"');
                if keys.len() == 1 {
                    assert(keys_array_text(keys)[0] == '"');
                } else {
                    assert(keys_array_text(keys)[0] == quoted(keys[0])[0]);
                }
                assert(tail[0] == '"');
                assert(tail[0] != ']');
                assert("]}}"@[0] == ']');
                lemma_keys_array_parses(keys, "]}}"@);
            }
        }
        ResponseModel::Len { count } => {
            let tail = dec_digits(count as nat) + "}}"@;
            assert(s =~= "{\"Len\":{\"count\":"@ + tail);
            lemma_parse_lit_concat("{\"Len\":{\"count\":"@, tail);
            assert(s[0] == '{');
            assert(s[2] == 'L');
            assert(parse_lit(s, "{\"Ok\":{\"value\":"@) is None) by {
                if parse_lit(s, "{\"Ok\":{\"value\":"@) is Some {
                    assert(s.subrange(0, 15)[2] == 'O');
                }
            }
            assert(parse_lit(s, "{\"Error\":{\"message\":"@) is None) by {
                if parse_lit(s, "{\"Error\":{\"message\":"@) is Some {
                    assert(s.subrange(0, 20)[2] == 'E');
                }
            }
            assert(parse_lit(s, "{\"Keys\":{\"keys\":["@) is None) by {
                if parse_lit(s, "{\"Keys\":{\"keys\":["@) is Some {
                    assert(s.subrange(0, 18)[2] == 'K');
                }
            }
            assert("}}"@[0] == '}');
            assert(!is_digit('}'));
            lemma_parse_nat_dec(count as nat, "}}"@);
        }
        ResponseModel::Pong => {
            assert(s[0] == '"');
        }
    }
    assert(parse_response(response_text(m)) matches Some(p) && p =~= m);
}

/// Round trip of the command codec: the message written for any command
/// parses back to exactly that command.
pub proof fn lemma_command_round_trip(c: CommandModel)
    ensures
        parse_command(command_text(c)) == Some(c),
{
    reveal_strlit("{\"Get\":{\"key\":");
    reveal_strlit("{\"Set\":{\"key\":");
    reveal_strlit("{\"Delete\":{\"key\":");
    reveal_strlit("{\"Exists\":{\"key\":");
    reveal_strlit(",\"value\":");
    reveal_strlit("}}");
    reveal_strlit("\"Keys\"");
    reveal_strlit("\"Len\"");
    reveal_strlit("\"Clear\"");
    reveal_strlit("\"Ping\"");
    let s = command_text(c);
    match c {
        CommandModel::Get { key } => {
            let tail = quoted(key) + "}}"@;
            assert(s =~= "{\"Get\":{\"key\":"@ + tail);
            lemma_parse_lit_concat("{\"Get\":{\"key\":"@, tail);
            assert(s[0] == '{');
            lemma_parse_quoted_quoted(key, "}}"@);
        }
        CommandModel::Put { key, value } => {
            let t2 = quoted(value) + "}}"@;
            let t1 = ",\"value\":"@ + t2;
            let tail = quoted(key) + t1;
            assert(s =~= "{\"Set\":{\"key\":"@ + tail);
            lemma_parse_lit_concat("{\"Set\":{\"key\":"@, tail);
            assert(s[0] == '{');
            // this message does not begin with the read tag
            assert(s[2] == 'S');
            assert(parse_lit(s, "{\"Get\":{\"key\":"@) is None) by {
                if parse_lit(s, "{\"Get\":{\"key\":"@) is Some {
                    assert(s.subrange(0, 14)[2] == 'G');
                }
            }
            lemma_parse_quoted_quoted(key, t1);
            lemma_parse_lit_concat(",\"value\":"@, t2);
            lemma_parse_quoted_quoted(value, "}}"@);
        }
        CommandModel::Delete { key } => {
            let tail = quoted(key) + "}}"@;
            assert(s =~= "{\"Delete\":{\"key\":"@ + tail);
            lemma_parse_lit_concat("{\"Delete\":{\"key\":"@, tail);
            assert(s[0] == '{');
            assert(s[2] == 'D');
            assert(parse_lit(s, "{\"Get\":{\"key\":"@) is None) by {
                if parse_lit(s, "{\"Get\":{\"key\":"@) is Some {
                    assert(s.subrange(0, 14)[2] == 'G');
                }
            }
            assert(parse_lit(s, "{\"Set\":{\"key\":"@) is None) by {
                if parse_lit(s, "{\"Set\":{\"key\":"@) is Some {
                    assert(s.subrange(0, 14)[2] == 'S');
                }
            }
            lemma_parse_quoted_quoted(key, "}}"@);
        }
        CommandModel::Exists { key } => {
            let tail = quoted(key) + "}}"@;
            assert(s =~= "{\"Exists\":{\"key\":"@ + tail);
            lemma_parse_lit_concat("{\"Exists\":{\"key\":"@, tail);
            assert(s[0] == '{');
            assert(s[2] == 'E');
            assert(parse_lit(s, "{\"Get\":{\"key\":"@) is None) by {
                if parse_lit(s, "{\"Get\":{\"key\":"@) is Some {
                    assert(s.subrange(0, 14)[2] == 'G');
                }
            }
            assert(parse_lit(s, "{\"Set\":{\"key\":"@) is None) by {
                if parse_lit(s, "{\"Set\":{\"key\":"@) is Some {
                    assert(s.subrange(0, 14)[2] == 'S');
                }
            }
            assert(parse_lit(s, "{\"Delete\":{\"key\":"@) is None) by {
                if parse_lit(s, "{\"Delete\":{\"key\":"@) is Some {
                    assert(s.subrange(0, 17)[2] == 'D');
                }
            }
            lemma_parse_quoted_quoted(key, "}}"@);
        }
        CommandModel::Keys => {
            assert(s[0] == '"');
        }
        CommandModel::Len => {
            assert(s[0] == '"');
            assert(s.len() != "\"Keys\""@.len());
        }
        CommandModel::Clear => {
            assert(s[0] == '"');
            assert(s.len() != "\"Keys\""@.len());
            assert(s[1] == 'C');
        }
        CommandModel::Ping => {
            assert(s[0] == '"');
            assert(s[1] == 'P');
            assert("\"Keys\""@[1] == 'K');
            assert(s != "\"Keys\""@);
            assert(s.len() != "\"Len\""@.len());
            assert(s.len() != "\"Clear\""@.len());
        }
    }
}

} // verus!

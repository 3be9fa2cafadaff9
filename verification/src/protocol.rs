//! The request/response protocol: the commands a client may issue and the
//! responses the server sends back, together with their mathematical models.

use vstd::prelude::*;

verus! {

/// A command, as a client issues it.
#[derive(Debug, Clone, PartialEq, Eq)]
pub enum DatabaseCommand {
    /// Read the value under a key.
    Get { key: String },
    /// Write a value under a key.
    Put { key: String, value: String },
    /// Remove a key.
    Delete { key: String },
    /// Ask whether a key is present.
    Exists { key: String },
    /// List every key.
    Keys,
    /// Count the entries.
    Len,
    /// Remove every entry.
    Clear,
    /// Health check.
    Ping,
}

/// The model of a command: the same variants over character sequences.
#[verifier::ext_equal]
pub enum CommandModel {
    Get { key: Seq<char> },
    Put { key: Seq<char>, value: Seq<char> },
    Delete { key: Seq<char> },
    Exists { key: Seq<char> },
    Keys,
    Len,
    Clear,
    Ping,
}

impl View for DatabaseCommand {
    type V = CommandModel;

    open spec fn view(&self) -> CommandModel {
        match self {
            DatabaseCommand::Get { key } => CommandModel::Get { key: key@ },
            DatabaseCommand::Put { key, value } => CommandModel::Put {
                key: key@,
                value: value@,
            },
            DatabaseCommand::Delete { key } => CommandModel::Delete { key: key@ },
            DatabaseCommand::Exists { key } => CommandModel::Exists { key: key@ },
            DatabaseCommand::Keys => CommandModel::Keys,
            DatabaseCommand::Len => CommandModel::Len,
            DatabaseCommand::Clear => CommandModel::Clear,
            DatabaseCommand::Ping => CommandModel::Ping,
        }
    }
}

/// A response, as the server sends it.
#[derive(Debug, Clone, PartialEq, Eq)]
pub enum DatabaseResponse {
    /// The operation succeeded; the value is the operation's result, absent
    /// where it has none.
    Success { value: Option<String> },
    /// The request could not be understood.
    Error { message: String },
    /// The list of all keys.
    Keys { keys: Vec<String> },
    /// The number of entries.
    Len { count: usize },
    /// The answer to a health check.
    Pong,
}

/// The model of a response: the same variants over character sequences.
#[verifier::ext_equal]
pub enum ResponseModel {
    Success { value: Option<Seq<char>> },
    Error { message: Seq<char> },
    Keys { keys: Seq<Seq<char>> },
    Len { count: int },
    Pong,
}

impl View for DatabaseResponse {
    type V = ResponseModel;

    open spec fn view(&self) -> ResponseModel {
        match self {
            DatabaseResponse::Success { value } => ResponseModel::Success { value: value.deep_view() },
            DatabaseResponse::Error { message } => ResponseModel::Error { message: message@ },
            DatabaseResponse::Keys { keys } => ResponseModel::Keys { keys: keys.deep_view() },
            DatabaseResponse::Len { count } => ResponseModel::Len { count: *count as int },
            DatabaseResponse::Pong => ResponseModel::Pong,
        }
    }
}

impl DatabaseResponse {
    /// A success that carries a value.
    pub fn success_with_value(value: String) -> (r: Self)
        ensures
            r@ == (ResponseModel::Success { value: Some(value@) }),
    {
        DatabaseResponse::Success { value: Some(value) }
    }

    /// A success that carries no value.
    pub fn success() -> (r: Self)
        ensures
            r@ == (ResponseModel::Success { value: None::<Seq<char>> }),
    {
        DatabaseResponse::Success { value: None }
    }

    /// An error with the given message.
    pub fn error(message: &str) -> (r: Self)
        ensures
            r@ == (ResponseModel::Error { message: message@ }),
    {
        DatabaseResponse::Error { message: message.to_owned() }
    }

    /// A list of keys.
    pub fn keys(keys: Vec<String>) -> (r: Self)
        ensures
            r@ == (ResponseModel::Keys { keys: keys.deep_view() }),
    {
        DatabaseResponse::Keys { keys }
    }

    /// An entry count.
    pub fn length(count: usize) -> (r: Self)
        ensures
            r@ == (ResponseModel::Len { count: count as int }),
    {
        DatabaseResponse::Len { count }
    }

    /// The answer to a health check.
    pub fn pong() -> (r: Self)
        ensures
            r@ == ResponseModel::Pong,
    {
        DatabaseResponse::Pong
    }

    /// Read this response as the answer to a command that yields an optional
    /// value (read, write, delete): a success hands the value out, an error
    /// hands its message out, and any other response is out of place.
    pub fn into_value(self) -> (r: Result<Option<String>, String>)
        ensures
            match self@ {
                ResponseModel::Success { value } => r matches Ok(v) && v.deep_view() == value,
                ResponseModel::Error { message } => r matches Err(m) && m@ == message,
                _ => r matches Err(m) && m@ == unexpected_response_text(),
            },
    {
        match self {
            DatabaseResponse::Success { value } => Ok(value),
            DatabaseResponse::Error { message } => Err(message),
            _ => Err(unexpected_response()),
        }
    }

    /// Read this response as the answer to a membership test: the key is
    /// reported present exactly where the value is the text `true`.
    pub fn into_bool(self) -> (r: Result<bool, String>)
        ensures
            match self@ {
                ResponseModel::Success { value } => match value {
                    Some(v) => r matches Ok(b) && b == (v == "true"@),
                    None => r == Ok::<bool, String>(false),
                },
                ResponseModel::Error { message } => r matches Err(m) && m@ == message,
                _ => r matches Err(m) && m@ == unexpected_response_text(),
            },
    {
        match self {
            DatabaseResponse::Success { value } => match value {
                Some(v) => Ok(v == String::from_str("true")),
                None => Ok(false),
            },
            DatabaseResponse::Error { message } => Err(message),
            _ => Err(unexpected_response()),
        }
    }

    /// Read this response as the answer to a key listing.
    pub fn into_keys(self) -> (r: Result<Vec<String>, String>)
        ensures
            match self@ {
                ResponseModel::Keys { keys } => r matches Ok(v) && v.deep_view() == keys,
                ResponseModel::Error { message } => r matches Err(m) && m@ == message,
                _ => r matches Err(m) && m@ == unexpected_response_text(),
            },
    {
        match self {
            DatabaseResponse::Keys { keys } => Ok(keys),
            DatabaseResponse::Error { message } => Err(message),
            _ => Err(unexpected_response()),
        }
    }

    /// Read this response as the answer to a count.
    pub fn into_len(self) -> (r: Result<usize, String>)
        ensures
            match self@ {
                ResponseModel::Len { count } => r matches Ok(n) && n as int == count,
                ResponseModel::Error { message } => r matches Err(m) && m@ == message,
                _ => r matches Err(m) && m@ == unexpected_response_text(),
            },
    {
        match self {
            DatabaseResponse::Len { count } => Ok(count),
            DatabaseResponse::Error { message } => Err(message),
            _ => Err(unexpected_response()),
        }
    }

    /// Read this response as the answer to a command that yields nothing
    /// (clearing the store): any success is accepted.
    pub fn into_unit(self) -> (r: Result<(), String>)
        ensures
            match self@ {
                ResponseModel::Success { value } => r matches Ok(v),
                ResponseModel::Error { message } => r matches Err(m) && m@ == message,
                _ => r matches Err(m) && m@ == unexpected_response_text(),
            },
    {
        match self {
            DatabaseResponse::Success { value: _ } => Ok(()),
            DatabaseResponse::Error { message } => Err(message),
            _ => Err(unexpected_response()),
        }
    }

    /// Read this response as the answer to a health check: only `Pong` is
    /// accepted.
    pub fn into_pong(self) -> (r: Result<(), String>)
        ensures
            match self@ {
                ResponseModel::Pong => r matches Ok(v),
                ResponseModel::Error { message } => r matches Err(m) && m@ == message,
                _ => r matches Err(m) && m@ == unexpected_response_text(),
            },
    {
        match self {
            DatabaseResponse::Pong => Ok(()),
            DatabaseResponse::Error { message } => Err(message),
            _ => Err(unexpected_response()),
        }
    }
}

/// The text reported where a response does not fit the command it answers.
pub open spec fn unexpected_response_text() -> Seq<char> {
    "Unexpected response type"@
}

/// The keys, one per line.
pub open spec fn key_lines(ks: Seq<Seq<char>>) -> Seq<char>
    decreases ks.len(),
{
    if ks.len() == 0 {
        Seq::empty()
    } else if ks.len() == 1 {
        ks[0]
    } else {
        ks[0] + seq!['\n'] + key_lines(ks.drop_first())
    }
}

/// What a command-line client prints for a response: the value itself, a
/// placeholder for an absent value or an empty listing, one key per line, a
/// count in decimal, or the health-check answer.
pub open spec fn rendered(m: ResponseModel) -> Seq<char> {
    match m {
        ResponseModel::Success { value } => match value {
            Some(v) => v,
            None => "(null)"@,
        },
        ResponseModel::Error { message } => "Error: "@ + message,
        ResponseModel::Keys { keys } => if keys.len() == 0 {
            "(empty)"@
        } else {
            key_lines(keys)
        },
        ResponseModel::Len { count } => crate::json::dec_digits(count as nat),
        ResponseModel::Pong => "PONG"@,
    }
}

/// Listing one more key appends it on a line of its own.
proof fn lemma_key_lines_push(ks: Seq<Seq<char>>, k: Seq<char>)
    ensures
        key_lines(ks.push(k)) == if ks.len() == 0 {
            k
        } else {
            key_lines(ks) + seq!['\n'] + k
        },
    decreases ks.len(),
{
    if ks.len() == 0 {
        assert(ks.push(k)[0] == k);
        assert(ks.push(k).len() == 1);
    } else {
        assert(ks.push(k)[0] == ks[0]);
        assert(ks.push(k).drop_first() =~= ks.drop_first().push(k));
        lemma_key_lines_push(ks.drop_first(), k);
        assert(key_lines(ks.push(k)) =~= key_lines(ks) + seq!['\n'] + k);
    }
}

/// Write what a command-line client prints for the response.
pub fn render_response(response: &DatabaseResponse) -> (r: String)
    ensures
        r@ == rendered(response@),
{
    match response {
        DatabaseResponse::Success { value } => match value {
            Some(v) => v.clone(),
            None => String::from_str("(null)"),
        },
        DatabaseResponse::Error { message } => {
            let mut out = String::from_str("Error: ");
            out.append(message.as_str());
            out
        }
        DatabaseResponse::Keys { keys } => {
            if keys.len() == 0 {
                proof {
                    assert(keys.deep_view().len() == 0);
                }
                String::from_str("(empty)")
            } else {
                let ghost all = keys.deep_view();
                let mut out: Vec<char> = Vec::new();
                let n = keys.len();
                let mut i: usize = 0;
                proof {
                    assert(key_lines(all.subrange(0, 0)) =~= Seq::<char>::empty());
                    assert(out@ =~= key_lines(all.subrange(0, 0)));
                }
                while i < n
                    invariant
                        n == keys@.len(),
                        all == keys.deep_view(),
                        all.len() == n,
                        i <= n,
                        forall|j: int| 0 <= j < n ==> all[j] == keys@[j]@,
                        out@ == key_lines(all.subrange(0, i as int)),
                    decreases n - i,
                {
                    let ghost pre = all.subrange(0, i as int);
                    if i > 0 {
                        out.push('\n');
                    }
                    crate::json::push_str_chars(&mut out, keys[i].as_str());
                    proof {
                        lemma_key_lines_push(pre, all[i as int]);
                        assert(pre.push(all[i as int]) =~= all.subrange(0, i + 1 as int));
                        assert(out@ =~= key_lines(all.subrange(0, i + 1 as int)));
                    }
                    i = i + 1;
                }
                proof {
                    assert(all.subrange(0, all.len() as int) =~= all);
                }
                crate::json::string_from_chars(&out)
            }
        }
        DatabaseResponse::Len { count } => {
            let mut out: Vec<char> = Vec::new();
            let c: u64 = (*count) as u64;
            crate::json::push_dec_u64(&mut out, c);
            proof {
                assert(c as nat == (*count) as nat);
                assert(out@ =~= crate::json::dec_digits((*count) as nat));
            }
            crate::json::string_from_chars(&out)
        }
        DatabaseResponse::Pong => String::from_str("PONG"),
    }
}

fn unexpected_response() -> (r: String)
    ensures
        r@ == unexpected_response_text(),
{
    String::from_str("Unexpected response type")
}

} // verus!

//! The command processor: the single authority that applies one command to
//! the store and decides whether the result must be persisted.
//!
//! Callers give it exclusive access to the store for the duration of one
//! call, so concurrent commands are linearized. Persisting the snapshot the
//! call asks for is the caller's work and happens after the exclusive access
//! ends; a failure to persist must not change the response already computed
//! (best-effort durability).

use vstd::prelude::*;

use crate::protocol::{CommandModel, DatabaseCommand, DatabaseResponse, ResponseModel};
use crate::store::{KeyValueStore, StoreModel};
use crate::wire::{decode_command, encode_response, parse_command, response_text};

verus! {

/// Whether a command mutates the store; exactly these commands ask for the
/// store to be persisted afterwards.
pub open spec fn is_mutation(c: CommandModel) -> bool {
    match c {
        CommandModel::Put { .. } => true,
        CommandModel::Delete { .. } => true,
        CommandModel::Clear => true,
        _ => false,
    }
}

/// The value a read-like command reports for a key: the value under the key,
/// absent where the key is absent.
pub open spec fn lookup(data: Map<Seq<char>, Seq<char>>, key: Seq<char>) -> Option<Seq<char>> {
    if data.contains_key(key) {
        Some(data[key])
    } else {
        None
    }
}

/// The mapping after a command: a write inserts, a delete removes, clearing
/// empties, and everything else leaves it alone.
pub open spec fn data_after(
    data: Map<Seq<char>, Seq<char>>,
    c: CommandModel,
) -> Map<Seq<char>, Seq<char>> {
    match c {
        CommandModel::Put { key, value } => data.insert(key, value),
        CommandModel::Delete { key } => data.remove(key),
        CommandModel::Clear => Map::empty(),
        _ => data,
    }
}

/// The response a command earns, from the store as it stood when the command
/// arrived: its mapping `m`, and its entries `es` in storage order (the key
/// listing preserves that order).
pub open spec fn response_of(
    m: StoreModel,
    es: Seq<(Seq<char>, Seq<char>)>,
    c: CommandModel,
) -> ResponseModel {
    match c {
        CommandModel::Get { key } => ResponseModel::Success { value: lookup(m.data, key) },
        CommandModel::Put { key, value } => ResponseModel::Success { value: lookup(m.data, key) },
        CommandModel::Delete { key } => ResponseModel::Success { value: lookup(m.data, key) },
        CommandModel::Exists { key } => ResponseModel::Success {
            value: Some(
                if m.data.contains_key(key) {
                    "true"@
                } else {
                    "false"@
                },
            ),
        },
        CommandModel::Keys => ResponseModel::Keys {
            keys: es.map_values(|e: (Seq<char>, Seq<char>)| e.0),
        },
        CommandModel::Len => ResponseModel::Len { count: m.data.len() as int },
        CommandModel::Clear => ResponseModel::Success { value: None },
        CommandModel::Ping => ResponseModel::Pong,
    }
}

/// Apply one command to the store and return the response, together with
/// whether the mutated store must now be persisted.
pub fn execute(store: &mut KeyValueStore, command: DatabaseCommand) -> (r: (
    DatabaseResponse,
    bool,
))
    requires
        old(store).wf(),
    ensures
        final(store).wf(),
        final(store)@.created_at == old(store)@.created_at,
        final(store)@.updated_at >= old(store)@.updated_at,
        final(store)@.data == data_after(old(store)@.data, command@),
        r.0@ == response_of(old(store)@, old(store).entries(), command@),
        r.1 == is_mutation(command@),
        !is_mutation(command@) ==> final(store)@ == old(store)@ && final(store).entries()
            == old(store).entries(),
{
    match command {
        DatabaseCommand::Get { key } => {
            let r = match store.get(&key) {
                Some(value) => DatabaseResponse::success_with_value(value),
                None => DatabaseResponse::success(),
            };
            (r, false)
        }
        DatabaseCommand::Put { key, value } => {
            let prev = store.set(key, value);
            let r = match prev {
                Some(value) => DatabaseResponse::success_with_value(value),
                None => DatabaseResponse::success(),
            };
            (r, true)
        }
        DatabaseCommand::Delete { key } => {
            let prev = store.delete(&key);
            let r = match prev {
                Some(value) => DatabaseResponse::success_with_value(value),
                None => DatabaseResponse::success(),
            };
            (r, true)
        }
        DatabaseCommand::Exists { key } => {
            let present = store.contains(&key);
            let text = if present {
                String::from_str("true")
            } else {
                String::from_str("false")
            };
            (DatabaseResponse::success_with_value(text), false)
        }
        DatabaseCommand::Keys => {
            let keys = store.keys();
            proof {
                crate::store::lemma_kv_map_len(store.entries());
                store.lemma_view_entries();
                assert(keys.deep_view() =~= store.entries().map_values(
                    |e: (Seq<char>, Seq<char>)| e.0,
                ));
            }
            (DatabaseResponse::keys(keys), false)
        }
        DatabaseCommand::Len => (DatabaseResponse::length(store.len()), false),
        DatabaseCommand::Clear => {
            store.clear();
            (DatabaseResponse::success(), true)
        }
        DatabaseCommand::Ping => (DatabaseResponse::pong(), false),
    }
}

/// The mapping after a sequence of write commands, each applied as `execute`
/// applies one `Put`.
pub open spec fn after_sets(
    data: Map<Seq<char>, Seq<char>>,
    writes: Seq<(Seq<char>, Seq<char>)>,
) -> Map<Seq<char>, Seq<char>>
    decreases writes.len(),
{
    if writes.len() == 0 {
        data
    } else {
        after_sets(
            data_after(data, CommandModel::Put { key: writes[0].0, value: writes[0].1 }),
            writes.drop_first(),
        )
    }
}

/// Keys no write touches keep their standing through a run of writes.
proof fn lemma_after_sets_frame(
    data: Map<Seq<char>, Seq<char>>,
    writes: Seq<(Seq<char>, Seq<char>)>,
    k: Seq<char>,
)
    requires
        forall|j: int| 0 <= j < writes.len() ==> writes[j].0 != k,
    ensures
        after_sets(data, writes).contains_key(k) == data.contains_key(k),
        data.contains_key(k) ==> after_sets(data, writes)[k] == data[k],
    decreases writes.len(),
{
    if writes.len() > 0 {
        assert(writes[0].0 != k);
        lemma_after_sets_frame(
            data.insert(writes[0].0, writes[0].1),
            writes.drop_first(),
            k,
        );
    }
}

/// Law: however many write commands run, one at a time under the store's
/// exclusive access, with pairwise distinct keys, the mapping afterwards
/// holds every written key with its value: no write is lost, in whatever
/// order the writes were interleaved.
pub proof fn lemma_no_lost_updates(
    data: Map<Seq<char>, Seq<char>>,
    writes: Seq<(Seq<char>, Seq<char>)>,
)
    requires
        crate::store::keys_distinct(writes),
    ensures
        forall|i: int|
            0 <= i < writes.len() ==> after_sets(data, writes).contains_key(
                #[trigger] writes[i].0,
            ) && after_sets(data, writes)[writes[i].0] == writes[i].1,
    decreases writes.len(),
{
    if writes.len() > 0 {
        let data1 = data.insert(writes[0].0, writes[0].1);
        let rest = writes.drop_first();
        assert forall|a: int, b: int| 0 <= a < b < rest.len() implies rest[a].0 != rest[b].0 by {
            assert(writes[a + 1].0 != writes[b + 1].0);
        }
        lemma_no_lost_updates(data1, rest);
        assert forall|j: int| 0 <= j < rest.len() implies rest[j].0 != writes[0].0 by {
            assert(writes[0].0 != writes[j + 1].0);
        }
        lemma_after_sets_frame(data1, rest, writes[0].0);
        assert forall|i: int|
            0 <= i < writes.len() implies after_sets(data, writes).contains_key(
            #[trigger] writes[i].0,
        ) && after_sets(data, writes)[writes[i].0] == writes[i].1 by {
            if i > 0 {
                assert(rest[i - 1] == writes[i]);
            }
        }
    }
}

/// The message a request earns where it cannot be read as a command; the
/// connection stays open after it.
pub open spec fn invalid_command_text() -> Seq<char> {
    "Invalid command: malformed request"@
}

/// Handle the text one transport read delivered: read it as one command,
/// apply the command to the store, and write the response message; a request
/// that is not a command earns an error message and changes nothing. The
/// second part of the result says whether the store must now be persisted.
pub fn handle_request(store: &mut KeyValueStore, request: &str) -> (r: (String, bool))
    requires
        old(store).wf(),
    ensures
        final(store).wf(),
        final(store)@.created_at == old(store)@.created_at,
        final(store)@.updated_at >= old(store)@.updated_at,
        match parse_command(request@) {
            Some(c) => {
                &&& final(store)@.data == data_after(old(store)@.data, c)
                &&& r.0@ == response_text(response_of(old(store)@, old(store).entries(), c))
                &&& r.1 == is_mutation(c)
                &&& !is_mutation(c) ==> final(store)@ == old(store)@ && final(store).entries()
                    == old(store).entries()
            },
            None => {
                &&& final(store)@ == old(store)@
                &&& final(store).entries() == old(store).entries()
                &&& r.0@ == response_text(
                    ResponseModel::Error { message: invalid_command_text() },
                )
                &&& r.1 == false
            },
        },
{
    match decode_command(request) {
        Some(command) => {
            let (response, persist) = execute(store, command);
            (encode_response(&response), persist)
        }
        None => {
            let response = DatabaseResponse::error("Invalid command: malformed request");
            (encode_response(&response), false)
        }
    }
}

} // verus!

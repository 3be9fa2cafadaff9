//! The persistence codec: the whole store written as one JSON document,
//!
//! ```text
//! {"data":{"key":"value",...},"created_at":0,"updated_at":0}
//! ```
//!
//! and read back from it. The decoder accepts exactly this shape; anything
//! else is malformed, which a loader treats as a fatal error. A document
//! whose keys repeat, or whose last-modified time lies before its creation
//! time, does not describe a well-formed store and is rejected too.

use vstd::prelude::*;

use crate::json::{
    chars_vec, dec_digits, expect_str, is_digit, lemma_parse_lit_concat, lemma_parse_nat_dec,
    lemma_parse_quoted_quoted, lemma_parse_quoted_shrinks, parse_lit, parse_nat, parse_quoted,
    parse_quoted_exec, parse_u64_exec, push_dec_u64, push_quoted, push_str_chars, quoted,
    string_from_chars, suffix,
};
use crate::store::{keys_distinct, pairs_view, KeyValueStore};

verus! {

/// The document's opening: the object and its data member.
pub open spec fn lit_head() -> Seq<char> {
    "{\"data\":{"@
}

/// The text between the data member and the creation timestamp.
pub open spec fn lit_created() -> Seq<char> {
    "},\"created_at\":"@
}

/// The text between the two timestamps.
pub open spec fn lit_updated() -> Seq<char> {
    ",\"updated_at\":"@
}

/// The document's closing brace.
pub open spec fn lit_tail() -> Seq<char> {
    "}"@
}

/// One key/value pair as the document writes it.
pub open spec fn entry_text(e: (Seq<char>, Seq<char>)) -> Seq<char> {
    quoted(e.0) + seq![':'] + quoted(e.1)
}

/// The pairs as the document writes them, separated by commas.
pub open spec fn entries_text(es: Seq<(Seq<char>, Seq<char>)>) -> Seq<char>
    decreases es.len(),
{
    if es.len() == 0 {
        Seq::empty()
    } else if es.len() == 1 {
        entry_text(es[0])
    } else {
        entry_text(es[0]) + seq![','] + entries_text(es.drop_first())
    }
}

/// The whole document for the given pairs and timestamps.
pub open spec fn snapshot_text(
    es: Seq<(Seq<char>, Seq<char>)>,
    created_at: u64,
    updated_at: u64,
) -> Seq<char> {
    lit_head() + entries_text(es) + lit_created() + dec_digits(created_at as nat) + lit_updated()
        + dec_digits(updated_at as nat) + lit_tail()
}

/// Parse one or more comma-separated pairs.
pub open spec fn parse_entries(s: Seq<char>) -> Option<
    (Seq<(Seq<char>, Seq<char>)>, Seq<char>),
>
    decreases s.len(),
    via parse_entries_dec
{
    match parse_quoted(s) {
        Some((k, s1)) => if s1.len() > 0 && s1[0] == ':' {
            match parse_quoted(s1.drop_first()) {
                Some((v, s2)) => if s2.len() > 0 && s2[0] == ',' {
                    match parse_entries(s2.drop_first()) {
                        Some((es, s3)) => Some((seq![(k, v)] + es, s3)),
                        None => None,
                    }
                } else {
                    Some((seq![(k, v)], s2))
                },
                None => None,
            }
        } else {
            None
        },
        None => None,
    }
}

#[via_fn]
proof fn parse_entries_dec(s: Seq<char>) {
    lemma_parse_quoted_shrinks(s);
    match parse_quoted(s) {
        Some((k, s1)) => {
            if s1.len() > 0 && s1[0] == ':' {
                lemma_parse_quoted_shrinks(s1.drop_first());
            }
        }
        None => {}
    }
}

/// Parse a whole document: the pairs and the two timestamps, as numbers.
pub open spec fn parse_snapshot(s: Seq<char>) -> Option<
    (Seq<(Seq<char>, Seq<char>)>, nat, nat),
> {
    match parse_lit(s, lit_head()) {
        Some(s1) => {
            let ep = if s1.len() > 0 && s1[0] == '}' {
                Some((Seq::<(Seq<char>, Seq<char>)>::empty(), s1))
            } else {
                parse_entries(s1)
            };
            match ep {
                Some((es, s2)) => match parse_lit(s2, lit_created()) {
                    Some(s3) => match parse_nat(s3) {
                        Some((c, s4)) => match parse_lit(s4, lit_updated()) {
                            Some(s5) => match parse_nat(s5) {
                                Some((u, s6)) => match parse_lit(s6, lit_tail()) {
                                    Some(s7) => if s7.len() == 0 {
                                        Some((es, c, u))
                                    } else {
                                        None
                                    },
                                    None => None,
                                },
                                None => None,
                            },
                            None => None,
                        },
                        None => None,
                    },
                    None => None,
                },
                None => None,
            }
        }
        None => None,
    }
}

/// Writing one more pair appends it, behind a comma where pairs came before.
proof fn lemma_entries_text_push(es: Seq<(Seq<char>, Seq<char>)>, e: (Seq<char>, Seq<char>))
    ensures
        entries_text(es.push(e)) == if es.len() == 0 {
            entry_text(e)
        } else {
            entries_text(es) + seq![','] + entry_text(e)
        },
    decreases es.len(),
{
    if es.len() == 0 {
        assert(es.push(e)[0] == e);
        assert(es.push(e).len() == 1);
    } else {
        assert(es.push(e)[0] == es[0]);
        assert(es.push(e).drop_first() =~= es.drop_first().push(e));
        lemma_entries_text_push(es.drop_first(), e);
        if es.len() == 1 {
            assert(entries_text(es.push(e)) =~= entries_text(es) + seq![','] + entry_text(e));
        } else {
            assert(entries_text(es.push(e)) =~= entries_text(es) + seq![','] + entry_text(e));
        }
    }
}

/// Where pairs were written, the text begins with a quote.
proof fn lemma_entries_text_first(es: Seq<(Seq<char>, Seq<char>)>)
    requires
        es.len() > 0,
    ensures
        entries_text(es).len() > 0,
        entries_text(es)[0] == '"',
{
    assert(quoted(es[0].0)[0] == '"');
    assert(entry_text(es[0])[0] == '"');
    if es.len() == 1 {
    } else {
        assert(entries_text(es)[0] == entry_text(es[0])[0]);
    }
}

/// The pairs as written, followed by anything that does not begin with a
/// comma, parse back to the pairs and that remainder.
proof fn lemma_entries_text_parses(es: Seq<(Seq<char>, Seq<char>)>, rest: Seq<char>)
    requires
        es.len() > 0,
        rest.len() > 0,
        rest[0] != ',',
    ensures
        parse_entries(entries_text(es) + rest) == Some((es, rest)),
    decreases es.len(),
{
    let e = es[0];
    let s = entries_text(es) + rest;
    if es.len() == 1 {
        let mid = seq![':'] + quoted(e.1) + rest;
        assert(s =~= quoted(e.0) + mid);
        lemma_parse_quoted_quoted(e.0, mid);
        assert(mid[0] == ':');
        assert(mid.drop_first() =~= quoted(e.1) + rest);
        lemma_parse_quoted_quoted(e.1, rest);
        assert(seq![(e.0, e.1)] =~= es);
    } else {
        let tail_es = es.drop_first();
        let mid = seq![':'] + quoted(e.1) + (seq![','] + entries_text(tail_es) + rest);
        assert(s =~= quoted(e.0) + mid);
        lemma_parse_quoted_quoted(e.0, mid);
        assert(mid[0] == ':');
        assert(mid.drop_first() =~= quoted(e.1) + (seq![','] + entries_text(tail_es) + rest));
        lemma_parse_quoted_quoted(e.1, seq![','] + entries_text(tail_es) + rest);
        let s2 = seq![','] + entries_text(tail_es) + rest;
        assert(s2[0] == ',');
        assert(s2.drop_first() =~= entries_text(tail_es) + rest);
        lemma_entries_text_parses(tail_es, rest);
        assert(seq![(e.0, e.1)] + tail_es =~= es);
    }
}

/// Round trip of persistence: the document written for any pairs and
/// timestamps parses back to exactly those pairs and timestamps. Together
/// with the contracts of `snapshot_string` and `decode_snapshot` this says
/// that saving a store and loading the file reproduces its mapping, with the
/// timestamps preserved exactly.
pub proof fn lemma_snapshot_round_trip(
    es: Seq<(Seq<char>, Seq<char>)>,
    created_at: u64,
    updated_at: u64,
)
    ensures
        parse_snapshot(snapshot_text(es, created_at, updated_at)) == Some(
            (es, created_at as nat, updated_at as nat),
        ),
{
    reveal_strlit("{\"data\":{");
    reveal_strlit("},\"created_at\":");
    reveal_strlit(",\"updated_at\":");
    reveal_strlit("}");
    let dc = dec_digits(created_at as nat);
    let du = dec_digits(updated_at as nat);
    let r5 = lit_tail();
    let r4 = lit_updated() + du + r5;
    let r3 = dc + r4;
    let r2 = lit_created() + r3;
    let r1 = entries_text(es) + r2;
    let s = snapshot_text(es, created_at, updated_at);
    assert(s =~= lit_head() + r1);
    lemma_parse_lit_concat(lit_head(), r1);
    assert(lit_created().len() == 15);
    assert(lit_created()[0] == '}');
    assert(r2[0] == '}');
    if es.len() == 0 {
        assert(r1 =~= r2);
        assert(r1[0] == '}');
    } else {
        lemma_entries_text_first(es);
        assert(r1[0] == '"');
        assert(r1[0] != '}');
        assert(r2.len() > 0 && r2[0] != ',');
        lemma_entries_text_parses(es, r2);
    }
    lemma_parse_lit_concat(lit_created(), r3);
    assert(lit_updated()[0] == ',');
    assert(r4[0] == ',');
    assert(!is_digit(','));
    assert(r3 =~= dc + r4);
    lemma_parse_nat_dec(created_at as nat, r4);
    assert(r4 =~= lit_updated() + (du + r5));
    lemma_parse_lit_concat(lit_updated(), du + r5);
    assert(r5.len() == 1 && r5[0] == '}');
    assert(!is_digit('}'));
    lemma_parse_nat_dec(updated_at as nat, r5);
    assert(r5 =~= lit_tail() + Seq::<char>::empty());
    lemma_parse_lit_concat(lit_tail(), Seq::<char>::empty());
}

/// Law, at the store level: the document a well-formed store writes parses
/// back to its exact entries and timestamps, and with them its mapping, and meets
/// every condition under which `decode_snapshot` accepts a document, so a
/// load of what was saved is owed success.
pub proof fn lemma_store_snapshot_round_trip(st: KeyValueStore)
    requires
        st.wf(),
    ensures
        ({
            let p = parse_snapshot(snapshot_text(st.entries(), st@.created_at, st@.updated_at));
            &&& p matches Some(q)
            &&& q.0 == st.entries()
            &&& crate::store::kv_map(q.0) == st@.data
            &&& q.1 == st@.created_at as nat
            &&& q.2 == st@.updated_at as nat
            &&& keys_distinct(q.0) && q.1 <= u64::MAX && q.2 <= u64::MAX && q.1 <= q.2
        }),
{
    lemma_snapshot_round_trip(st.entries(), st@.created_at, st@.updated_at);
    st.lemma_view_entries();
}

/// Write the document for the store, as characters.
fn snapshot_chars(store: &KeyValueStore) -> (r: Vec<char>)
    ensures
        r@ == snapshot_text(store.entries(), store@.created_at, store@.updated_at),
{
    let mut out: Vec<char> = Vec::new();
    push_str_chars(&mut out, "{\"data\":{");
    proof {
        assert(out@ =~= lit_head() + entries_text(store.entries().subrange(0, 0)));
    }
    let data = store.raw_entries();
    let n = data.len();
    let mut i: usize = 0;
    while i < n
        invariant
            n == data@.len(),
            i <= n,
            pairs_view(data@) == store.entries(),
            out@ == lit_head() + entries_text(store.entries().subrange(0, i as int)),
        decreases n - i,
    {
        let ghost pre = store.entries().subrange(0, i as int);
        if i > 0 {
            out.push(',');
        }
        push_quoted(&mut out, data[i].0.as_str());
        out.push(':');
        push_quoted(&mut out, data[i].1.as_str());
        proof {
            let e = store.entries()[i as int];
            assert(e == (data@[i as int].0@, data@[i as int].1@));
            lemma_entries_text_push(pre, e);
            assert(pre.push(e) =~= store.entries().subrange(0, i + 1 as int));
            assert(out@ =~= lit_head() + entries_text(store.entries().subrange(0, i + 1 as int)));
        }
        i = i + 1;
    }
    proof {
        assert(store.entries().subrange(0, store.entries().len() as int) =~= store.entries());
    }
    push_str_chars(&mut out, "},\"created_at\":");
    push_dec_u64(&mut out, store.created_at());
    push_str_chars(&mut out, ",\"updated_at\":");
    push_dec_u64(&mut out, store.updated_at());
    push_str_chars(&mut out, "}");
    proof {
        assert(out@ =~= snapshot_text(store.entries(), store@.created_at, store@.updated_at));
    }
    out
}

/// Write the document for the store.
pub fn snapshot_string(store: &KeyValueStore) -> (r: String)
    ensures
        r@ == snapshot_text(store.entries(), store@.created_at, store@.updated_at),
{
    let chars = snapshot_chars(store);
    string_from_chars(&chars)
}

/// Parse one or more comma-separated pairs at the given position.
fn parse_entries_exec(s: &Vec<char>, pos: usize) -> (r: Option<(Vec<(String, String)>, usize)>)
    requires
        pos <= s@.len(),
    ensures
        match r {
            Some(p) => pos < p.1 <= s@.len() && parse_entries(suffix(s@, pos as int)) == Some(
                (pairs_view(p.0@), suffix(s@, p.1 as int)),
            ),
            None => parse_entries(suffix(s@, pos as int)) is None,
        },
    decreases s@.len() - pos,
{
    let (k, p2) = match parse_quoted_exec(s, pos) {
        Some(p) => p,
        None => {
            return None;
        },
    };
    if p2 == s.len() {
        proof {
            assert(suffix(s@, p2 as int).len() == 0);
        }
        return None;
    }
    proof {
        assert(suffix(s@, p2 as int)[0] == s@[p2 as int]);
    }
    if s[p2] != ':' {
        return None;
    }
    proof {
        assert(suffix(s@, p2 as int).drop_first() =~= suffix(s@, p2 + 1));
    }
    let (v, p3) = match parse_quoted_exec(s, p2 + 1) {
        Some(p) => p,
        None => {
            return None;
        },
    };
    let key = string_from_chars(&k);
    let value = string_from_chars(&v);
    let more = p3 < s.len() && s[p3] == ',';
    proof {
        if p3 < s@.len() {
            assert(suffix(s@, p3 as int)[0] == s@[p3 as int]);
        } else {
            assert(suffix(s@, p3 as int).len() == 0);
        }
    }
    if more {
        proof {
            assert(suffix(s@, p3 as int).drop_first() =~= suffix(s@, p3 + 1));
        }
        match parse_entries_exec(s, p3 + 1) {
            Some((mut es, j)) => {
                let ghost es0 = es@;
                es.insert(0, (key, value));
                proof {
                    assert(es@ =~= seq![(key, value)] + es0);
                    assert(pairs_view(es@) =~= seq![(k@, v@)] + pairs_view(es0));
                }
                Some((es, j))
            }
            None => None,
        }
    } else {
        let mut es: Vec<(String, String)> = Vec::new();
        es.push((key, value));
        proof {
            assert(pairs_view(es@) =~= seq![(k@, v@)]);
        }
        Some((es, p3))
    }
}

/// Whether the keys of the pairs are pairwise distinct.
fn check_distinct(data: &Vec<(String, String)>) -> (b: bool)
    ensures
        b == keys_distinct(pairs_view(data@)),
{
    let n = data.len();
    let mut i: usize = 0;
    while i < n
        invariant
            i <= n,
            n == data@.len(),
            forall|a: int, b: int|
                0 <= a < i && a < b < n ==> pairs_view(data@)[a].0 != pairs_view(data@)[b].0,
        decreases n - i,
    {
        let mut j: usize = i + 1;
        while j < n
            invariant
                i < j <= n,
                i < n,
                n == data@.len(),
                forall|b: int| i < b < j ==> pairs_view(data@)[i as int].0 != pairs_view(data@)[b].0,
            decreases n - j,
        {
            if data[i].0 == data[j].0 {
                proof {
                    assert(pairs_view(data@)[i as int].0 == pairs_view(data@)[j as int].0);
                    assert(!keys_distinct(pairs_view(data@)));
                }
                return false;
            }
            j = j + 1;
        }
        i = i + 1;
    }
    true
}

/// Read a store back from a document. `None` where the text is not a
/// document this codec writes, where a timestamp does not fit in 64 bits,
/// where keys repeat, or where the last-modified time lies before the
/// creation time: no well-formed store is described then.
pub fn decode_snapshot(text: &str) -> (r: Option<KeyValueStore>)
    ensures
        match r {
            Some(st) => {
                &&& st.wf()
                &&& parse_snapshot(text@) matches Some(p)
                &&& st.entries() == p.0
                &&& st@.created_at as nat == p.1
                &&& st@.updated_at as nat == p.2
            },
            None => match parse_snapshot(text@) {
                Some(p) => !(keys_distinct(p.0) && p.1 <= u64::MAX && p.2 <= u64::MAX && p.1
                    <= p.2),
                None => true,
            },
        },
{
    let s = chars_vec(text);
    proof {
        assert(suffix(s@, 0) =~= s@);
    }
    let pos0 = match expect_str(&s, 0, "{\"data\":{") {
        Some(j) => j,
        None => {
            return None;
        },
    };
    let ghost s1 = suffix(s@, pos0 as int);
    let empty_map = pos0 < s.len() && s[pos0] == '}';
    proof {
        if pos0 < s@.len() {
            assert(s1[0] == s@[pos0 as int]);
        } else {
            assert(s1.len() == 0);
        }
    }
    let (entries, pos1): (Vec<(String, String)>, usize) = if empty_map {
        (Vec::new(), pos0)
    } else {
        match parse_entries_exec(&s, pos0) {
            Some(p) => p,
            None => {
                return None;
            },
        }
    };
    proof {
        if empty_map {
            assert(pairs_view(entries@) =~= Seq::<(Seq<char>, Seq<char>)>::empty());
        }
    }
    let pos2 = match expect_str(&s, pos1, "},\"created_at\":") {
        Some(j) => j,
        None => {
            return None;
        },
    };
    let (created_at, pos3) = match parse_u64_exec(&s, pos2) {
        Some(p) => p,
        None => {
            return None;
        },
    };
    let pos4 = match expect_str(&s, pos3, ",\"updated_at\":") {
        Some(j) => j,
        None => {
            return None;
        },
    };
    let (updated_at, pos5) = match parse_u64_exec(&s, pos4) {
        Some(p) => p,
        None => {
            return None;
        },
    };
    let pos6 = match expect_str(&s, pos5, "}") {
        Some(j) => j,
        None => {
            return None;
        },
    };
    if pos6 != s.len() {
        proof {
            assert(suffix(s@, pos6 as int).len() != 0);
        }
        return None;
    }
    proof {
        assert(suffix(s@, pos6 as int).len() == 0);
    }
    if created_at > updated_at {
        return None;
    }
    if !check_distinct(&entries) {
        return None;
    }
    Some(KeyValueStore::from_parts(entries, created_at, updated_at))
}

} // verus!

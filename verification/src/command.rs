//! The command bridge's language: one text command per line, and the pure
//! transition each command makes on the record store, with exactly one
//! reply per command. A malformed line degrades to an error reply; it
//! never terminates the handler.
use vstd::prelude::*;

use crate::codec::{encode_records, enc_records, match_lit, parse_u64, parse_u64_exec, match_lit_exec};
use crate::record::{Record, RecordV, views};
use crate::store::{
    append_spec, has_id, list_public, max_id, max_record_id, public_of, set_public,
    set_public_spec,
};

verus! {

/// A parsed command line.
pub enum Command {
    /// `ls r all`: list the public records.
    ListPublic,
    /// `ls p`: list peers (not supported by this node).
    ListPeers,
    /// `publish r <id>`: make the record with that id public.
    Publish(u64),
    /// `create r <name>|<ingredients>|<instructions>`: append a private record.
    Create { name: String, ingredients: String, instructions: String },
    /// Anything else.
    Invalid,
}

/// The mathematical image of a command.
pub enum CommandV {
    ListPublic,
    ListPeers,
    Publish(u64),
    Create { name: Seq<char>, ingredients: Seq<char>, instructions: Seq<char> },
    Invalid,
}

impl View for Command {
    type V = CommandV;

    open spec fn view(&self) -> CommandV {
        match self {
            Command::ListPublic => CommandV::ListPublic,
            Command::ListPeers => CommandV::ListPeers,
            Command::Publish(id) => CommandV::Publish(*id),
            Command::Create { name, ingredients, instructions } => CommandV::Create {
                name: name@,
                ingredients: ingredients@,
                instructions: instructions@,
            },
            Command::Invalid => CommandV::Invalid,
        }
    }
}

pub open spec fn lit_ls_r_all() -> Seq<char> {
    seq!['l', 's', ' ', 'r', ' ', 'a', 'l', 'l']
}

pub open spec fn lit_ls_p() -> Seq<char> {
    seq!['l', 's', ' ', 'p']
}

pub open spec fn lit_publish_r() -> Seq<char> {
    seq!['p', 'u', 'b', 'l', 'i', 's', 'h', ' ', 'r', ' ']
}

pub open spec fn lit_create_r() -> Seq<char> {
    seq!['c', 'r', 'e', 'a', 't', 'e', ' ', 'r', ' ']
}

/// The first `|` at or after position `i`, or the length when there is none.
pub open spec fn find_pipe(s: Seq<char>, i: int) -> int
    decreases s.len() - i,
{
    if !(0 <= i < s.len()) {
        s.len() as int
    } else if s[i] == '|' {
        i
    } else {
        find_pipe(s, i + 1)
    }
}

/// A create payload must hold exactly three fields separated by two `|`.
pub open spec fn parse_create_payload(p: Seq<char>) -> CommandV {
    let p1 = find_pipe(p, 0);
    let p2 = find_pipe(p, p1 + 1);
    let p3 = find_pipe(p, p2 + 1);
    if p1 < p.len() && p2 < p.len() && p3 == p.len() {
        CommandV::Create {
            name: p.subrange(0, p1),
            ingredients: p.subrange(p1 + 1, p2),
            instructions: p.subrange(p2 + 1, p.len() as int),
        }
    } else {
        CommandV::Invalid
    }
}

/// The command grammar: tokens separated by single spaces; the create
/// payload is everything after `create r `, the publish argument must be
/// a decimal id that fills the rest of the line.
pub open spec fn parse_command_spec(s: Seq<char>) -> CommandV {
    if s == lit_ls_r_all() {
        CommandV::ListPublic
    } else if s == lit_ls_p() {
        CommandV::ListPeers
    } else if match_lit(s, 0, lit_publish_r()) is Some {
        match parse_u64(s, 10) {
            Some(p) => if p.1 == s.len() {
                CommandV::Publish(p.0)
            } else {
                CommandV::Invalid
            },
            None => CommandV::Invalid,
        }
    } else if match_lit(s, 0, lit_create_r()) is Some {
        parse_create_payload(s.subrange(9, s.len() as int))
    } else {
        CommandV::Invalid
    }
}

/// The first `|` at or after position `i`, or the length when there is none.
fn find_pipe_exec(s: &str, n: usize, i: usize) -> (r: usize)
    requires
        n == s@.len(),
        i <= n,
    ensures
        r as int == find_pipe(s@, i as int),
        i <= r <= n,
{
    let mut j = i;
    while j < n
        invariant
            n == s@.len(),
            i <= j <= n,
            find_pipe(s@, i as int) == find_pipe(s@, j as int),
        decreases n - j,
    {
        if s.get_char(j) == '|' {
            return j;
        }
        j = j + 1;
    }
    j
}

/// Parse one command line.
pub fn parse_command(line: &str) -> (c: Command)
    ensures
        c@ == parse_command_spec(line@),
{
    proof {
        reveal_strlit("ls r all");
        assert("ls r all"@ =~= lit_ls_r_all());
        reveal_strlit("ls p");
        assert("ls p"@ =~= lit_ls_p());
        reveal_strlit("publish r ");
        assert("publish r "@ =~= lit_publish_r());
        reveal_strlit("create r ");
        assert("create r "@ =~= lit_create_r());
    }
    let n = line.unicode_len();
    if n == 8 && match_lit_exec(line, n, 0, "ls r all").is_some() {
        proof {
            assert(line@.subrange(0, 8) =~= line@);
        }
        return Command::ListPublic;
    }
    proof {
        if line@ == lit_ls_r_all() {
            assert(line@.subrange(0, 8) =~= lit_ls_r_all());
        }
    }
    if n == 4 && match_lit_exec(line, n, 0, "ls p").is_some() {
        proof {
            assert(line@.subrange(0, 4) =~= line@);
        }
        return Command::ListPeers;
    }
    proof {
        if line@ == lit_ls_p() {
            assert(line@.subrange(0, 4) =~= lit_ls_p());
        }
    }
    if match_lit_exec(line, n, 0, "publish r ").is_some() {
        match parse_u64_exec(line, n, 10) {
            Some(p) => {
                if p.1 == n {
                    return Command::Publish(p.0);
                } else {
                    return Command::Invalid;
                }
            },
            None => {
                return Command::Invalid;
            },
        }
    }
    if match_lit_exec(line, n, 0, "create r ").is_some() {
        let p1 = find_pipe_exec(line, n, 9);
        let p2 = if p1 < n {
            find_pipe_exec(line, n, p1 + 1)
        } else {
            n
        };
        let p3 = if p2 < n {
            find_pipe_exec(line, n, p2 + 1)
        } else {
            n
        };
        let ghost payload = line@.subrange(9, n as int);
        proof {
            lemma_find_pipe_offset(line@, payload, 9, 0);
            lemma_find_pipe_offset(line@, payload, 9, p1 - 9 + 1);
            lemma_find_pipe_offset(line@, payload, 9, p2 - 9 + 1);
        }
        if p1 < n && p2 < n && p3 == n {
            let name = line.substring_char(9, p1).to_owned();
            let ingredients = line.substring_char(p1 + 1, p2).to_owned();
            let instructions = line.substring_char(p2 + 1, n).to_owned();
            proof {
                assert(line@.subrange(9, p1 as int) =~= payload.subrange(0, p1 - 9));
                assert(line@.subrange(p1 + 1, p2 as int) =~= payload.subrange(
                    p1 - 9 + 1,
                    p2 - 9,
                ));
                assert(line@.subrange(p2 + 1, n as int) =~= payload.subrange(
                    p2 - 9 + 1,
                    payload.len() as int,
                ));
            }
            return Command::Create { name, ingredients, instructions };
        } else {
            return Command::Invalid;
        }
    }
    Command::Invalid
}

/// Positions in a suffix: finding a pipe in `s` from `base + k` mirrors
/// finding one in the suffix of `s` that starts at `base`.
pub proof fn lemma_find_pipe_offset(s: Seq<char>, suffix: Seq<char>, base: int, k: int)
    requires
        0 <= base <= s.len(),
        suffix == s.subrange(base, s.len() as int),
        0 <= k,
    ensures
        find_pipe(s, base + k) == base + find_pipe(suffix, k),
    decreases s.len() - base - k,
{
    if k >= suffix.len() {
        assert(find_pipe(suffix, k) == suffix.len() as int);
        assert(find_pipe(s, base + k) == s.len() as int);
    } else {
        assert(suffix[k] == s[base + k]);
        if s[base + k] == '|' {
        } else {
            lemma_find_pipe_offset(s, suffix, base, k + 1);
        }
    }
}

// ---------- replies ----------

pub open spec fn reply_created() -> Seq<char> {
    "{\"status\":\"Recipe created\"}"@
}

pub open spec fn reply_published() -> Seq<char> {
    "{\"status\":\"Recipe published\"}"@
}

pub open spec fn reply_not_found() -> Seq<char> {
    "{\"error\":\"Recipe not found\"}"@
}

pub open spec fn reply_invalid() -> Seq<char> {
    "{\"error\":\"Invalid command\"}"@
}

pub open spec fn reply_not_implemented() -> Seq<char> {
    "{\"error\":\"Not implemented\"}"@
}

pub open spec fn reply_storage_failure() -> Seq<char> {
    "{\"error\":\"Storage failure\"}"@
}

/// The reply the caller's I/O layer sends when the backing file fails.
pub fn storage_failure_reply() -> (r: String)
    ensures
        r@ == reply_storage_failure(),
{
    "{\"error\":\"Storage failure\"}".to_owned()
}

/// What one command does to the store, and the one reply it earns.
pub open spec fn apply_command_spec(rs: Seq<RecordV>, c: CommandV) -> (Seq<RecordV>, Seq<char>) {
    match c {
        CommandV::ListPublic => (rs, enc_records(public_of(rs))),
        CommandV::ListPeers => (rs, reply_not_implemented()),
        CommandV::Publish(id) => if has_id(rs, id) {
            (set_public_spec(rs, id), reply_published())
        } else {
            (rs, reply_not_found())
        },
        CommandV::Create { name, ingredients, instructions } => if max_id(rs) < u64::MAX {
            (append_spec(rs, name, ingredients, instructions), reply_created())
        } else {
            (rs, reply_storage_failure())
        },
        CommandV::Invalid => (rs, reply_invalid()),
    }
}

/// Run one command against the in-memory record list and return its reply.
/// Every command earns exactly one reply; failures reply too.
pub fn apply_command(records: &mut Vec<Record>, cmd: &Command) -> (reply: String)
    ensures
        views(final(records)@) == apply_command_spec(views(old(records)@), cmd@).0,
        reply@ == apply_command_spec(views(old(records)@), cmd@).1,
{
    match cmd {
        Command::ListPublic => {
            let pubs = list_public(records);
            encode_records(&pubs)
        },
        Command::ListPeers => "{\"error\":\"Not implemented\"}".to_owned(),
        Command::Publish(id) => match set_public(records, *id) {
            Ok(()) => "{\"status\":\"Recipe published\"}".to_owned(),
            Err(_) => "{\"error\":\"Recipe not found\"}".to_owned(),
        },
        Command::Create { name, ingredients, instructions } => {
            let m = max_record_id(records);
            if m < u64::MAX {
                let _ = crate::store::append_recipe(
                    records,
                    name.clone(),
                    ingredients.clone(),
                    instructions.clone(),
                );
                "{\"status\":\"Recipe created\"}".to_owned()
            } else {
                "{\"error\":\"Storage failure\"}".to_owned()
            }
        },
        Command::Invalid => "{\"error\":\"Invalid command\"}".to_owned(),
    }
}

} // verus!

//! The node's wire and file format: a JSON array of record objects,
//! `[{"id":1,"name":"...","ingredients":"...","instructions":"...","public":false},...]`.
//! The grammar is stated as spec functions; the encoder and the parser are
//! verified against it. String values escape `"` and `\` with a backslash.
use vstd::prelude::*;

use crate::record::{Record, RecordV, views};

verus! {

/// Relies on alloc's `String::push`: appends exactly the given character.
pub assume_specification[ String::push ](s: &mut String, c: char)
    ensures
        final(s)@ == old(s)@ + seq![c],
;

// ---------- escaping ----------

/// How one character appears inside a quoted string value.
pub open spec fn esc_char(c: char) -> Seq<char> {
    if c == '"' {
        seq!['\\', '"']
    } else if c == '\\' {
        seq!['\\', '\\']
    } else {
        seq![c]
    }
}

/// A whole string value, escaped character by character.
pub open spec fn esc(s: Seq<char>) -> Seq<char>
    decreases s.len(),
{
    if s.len() == 0 {
        Seq::empty()
    } else {
        esc_char(s[0]) + esc(s.subrange(1, s.len() as int))
    }
}

pub proof fn lemma_esc_push(s: Seq<char>, c: char)
    ensures
        esc(s.push(c)) == esc(s) + esc_char(c),
    decreases s.len(),
{
    if s.len() == 0 {
        assert(s.push(c)[0] == c);
        assert(s.push(c).subrange(1, 1) =~= Seq::<char>::empty());
        assert(esc(Seq::<char>::empty()) =~= Seq::<char>::empty());
        assert(s =~= Seq::<char>::empty());
        assert(esc(s.push(c)) =~= esc(s) + esc_char(c));
    } else {
        let t = s.subrange(1, s.len() as int);
        assert(s.push(c)[0] == s[0]);
        assert(s.push(c).subrange(1, s.len() as int + 1) =~= t.push(c));
        lemma_esc_push(t, c);
        assert(esc(s.push(c)) =~= esc(s) + esc_char(c));
    }
}

// ---------- decimal digits ----------

pub open spec fn is_digit(c: char) -> bool {
    48 <= c as u32 <= 57
}

pub open spec fn digit_val(c: char) -> u64 {
    (c as u32 - 48) as u64
}

pub open spec fn digit_char(d: u64) -> char {
    ((48 + d) as u8) as char
}

/// The decimal digits of `n`, most significant first, no leading zeros.
pub open spec fn dec_digits(n: u64) -> Seq<char>
    decreases n,
{
    if n < 10 {
        seq![digit_char(n)]
    } else {
        dec_digits(n / 10).push(digit_char(n % 10))
    }
}

// ---------- the record grammar ----------

pub open spec fn lit_obj_id() -> Seq<char> {
    seq!['{', '"', 'i', 'd', '"', ':']
}

pub open spec fn lit_name() -> Seq<char> {
    seq![',', '"', 'n', 'a', 'm', 'e', '"', ':']
}

pub open spec fn lit_ingredients() -> Seq<char> {
    seq![',', '"', 'i', 'n', 'g', 'r', 'e', 'd', 'i', 'e', 'n', 't', 's', '"', ':']
}

pub open spec fn lit_instructions() -> Seq<char> {
    seq![',', '"', 'i', 'n', 's', 't', 'r', 'u', 'c', 't', 'i', 'o', 'n', 's', '"', ':']
}

pub open spec fn lit_public() -> Seq<char> {
    seq![',', '"', 'p', 'u', 'b', 'l', 'i', 'c', '"', ':']
}

pub open spec fn lit_true() -> Seq<char> {
    seq!['t', 'r', 'u', 'e']
}

pub open spec fn lit_false() -> Seq<char> {
    seq!['f', 'a', 'l', 's', 'e']
}

pub open spec fn bool_lit(b: bool) -> Seq<char> {
    if b {
        lit_true()
    } else {
        lit_false()
    }
}

/// A quoted string value: escaped content between double quotes.
pub open spec fn quoted(s: Seq<char>) -> Seq<char> {
    seq!['"'] + esc(s) + seq!['"']
}

/// One record as a JSON object.
pub open spec fn enc_record(r: RecordV) -> Seq<char> {
    lit_obj_id() + dec_digits(r.id) + lit_name() + quoted(r.name) + lit_ingredients() + quoted(
        r.ingredients,
    ) + lit_instructions() + quoted(r.instructions) + lit_public() + bool_lit(r.public)
        + seq!['}']
}

/// The comma-separated object list (no brackets).
pub open spec fn enc_record_list(rs: Seq<RecordV>) -> Seq<char>
    decreases rs.len(),
{
    if rs.len() == 0 {
        Seq::empty()
    } else if rs.len() == 1 {
        enc_record(rs[0])
    } else {
        enc_record(rs[0]) + seq![','] + enc_record_list(rs.subrange(1, rs.len() as int))
    }
}

/// A whole record list as a JSON array.
pub open spec fn enc_records(rs: Seq<RecordV>) -> Seq<char> {
    seq!['['] + enc_record_list(rs) + seq![']']
}

pub proof fn lemma_enc_record_list_push(rs: Seq<RecordV>, r: RecordV)
    ensures
        rs.len() == 0 ==> enc_record_list(rs.push(r)) == enc_record(r),
        rs.len() > 0 ==> enc_record_list(rs.push(r)) == enc_record_list(rs) + seq![',']
            + enc_record(r),
    decreases rs.len(),
{
    if rs.len() == 0 {
        assert(rs.push(r)[0] == r);
        assert(enc_record_list(rs.push(r)) == enc_record(r));
    } else {
        let t = rs.subrange(1, rs.len() as int);
        assert(rs.push(r)[0] == rs[0]);
        assert(rs.push(r).subrange(1, rs.len() as int + 1) =~= t.push(r));
        lemma_enc_record_list_push(t, r);
        if rs.len() == 1 {
            assert(t.len() == 0);
            assert(enc_record_list(rs.push(r)) =~= enc_record_list(rs) + seq![','] + enc_record(
                r,
            ));
        } else {
            assert(enc_record_list(rs) == enc_record(rs[0]) + seq![','] + enc_record_list(t));
            assert(enc_record_list(rs.push(r)) =~= enc_record_list(rs) + seq![','] + enc_record(
                r,
            ));
        }
    }
}

// ---------- the encoder ----------

/// Append `s` to `out` in escaped form.
pub fn push_escaped(out: &mut String, s: &str)
    ensures
        final(out)@ == old(out)@ + esc(s@),
{
    let n = s.unicode_len();
    let mut i: usize = 0;
    proof {
        assert(s@.subrange(0, 0) =~= Seq::<char>::empty());
        assert(out@ + esc(s@.subrange(0, 0)) =~= out@);
    }
    while i < n
        invariant
            n == s@.len(),
            0 <= i <= n,
            out@ == old(out)@ + esc(s@.subrange(0, i as int)),
        decreases n - i,
    {
        let c = s.get_char(i);
        proof {
            assert(s@.subrange(0, i + 1) =~= s@.subrange(0, i as int).push(s@[i as int]));
            lemma_esc_push(s@.subrange(0, i as int), s@[i as int]);
        }
        if c == '"' {
            out.push('\\');
            out.push('"');
        } else if c == '\\' {
            out.push('\\');
            out.push('\\');
        } else {
            out.push(c);
        }
        proof {
            assert(out@ =~= old(out)@ + esc(s@.subrange(0, i + 1)));
        }
        i = i + 1;
    }
    proof {
        assert(s@.subrange(0, n as int) =~= s@);
    }
}

/// Append the decimal digits of `n` to `out`.
pub fn push_u64(out: &mut String, n: u64)
    ensures
        final(out)@ == old(out)@ + dec_digits(n),
    decreases n,
{
    if n < 10 {
        out.push((48 + n as u8) as char);
        proof {
            assert(out@ =~= old(out)@ + dec_digits(n));
        }
    } else {
        push_u64(out, n / 10);
        out.push((48 + (n % 10) as u8) as char);
        proof {
            assert(out@ =~= old(out)@ + dec_digits(n));
        }
    }
}

/// Append one encoded record to `out`.
#[verifier::rlimit(60)]
pub fn push_record(out: &mut String, r: &Record)
    ensures
        final(out)@ == old(out)@ + enc_record(r@),
{
    out.append("{\"id\":");
    proof {
        reveal_strlit("{\"id\":");
        assert(out@ =~= old(out)@ + lit_obj_id());
    }
    push_u64(out, r.id);
    out.append(",\"name\":\"");
    proof {
        reveal_strlit(",\"name\":\"");
        assert(out@ =~= old(out)@ + lit_obj_id() + dec_digits(r.id) + lit_name() + seq!['"']);
    }
    push_escaped(out, r.name.as_str());
    out.append("\",\"ingredients\":\"");
    proof {
        reveal_strlit("\",\"ingredients\":\"");
        assert(out@ =~= old(out)@ + lit_obj_id() + dec_digits(r.id) + lit_name() + quoted(
            r.name@,
        ) + lit_ingredients() + seq!['"']);
    }
    push_escaped(out, r.ingredients.as_str());
    out.append("\",\"instructions\":\"");
    proof {
        reveal_strlit("\",\"instructions\":\"");
        assert(out@ =~= old(out)@ + lit_obj_id() + dec_digits(r.id) + lit_name() + quoted(
            r.name@,
        ) + lit_ingredients() + quoted(r.ingredients@) + lit_instructions() + seq!['"']);
    }
    push_escaped(out, r.instructions.as_str());
    out.append("\",\"public\":");
    proof {
        reveal_strlit("\",\"public\":");
        assert(out@ =~= old(out)@ + lit_obj_id() + dec_digits(r.id) + lit_name() + quoted(
            r.name@,
        ) + lit_ingredients() + quoted(r.ingredients@) + lit_instructions() + quoted(
            r.instructions@,
        ) + lit_public());
    }
    if r.public {
        out.append("true");
        proof {
            reveal_strlit("true");
            assert("true"@ =~= lit_true());
        }
    } else {
        out.append("false");
        proof {
            reveal_strlit("false");
            assert("false"@ =~= lit_false());
        }
    }
    out.push('}');
    proof {
        assert(out@ =~= old(out)@ + enc_record(r@));
    }
}

/// Encode a whole record list as a JSON array.
pub fn encode_records(records: &Vec<Record>) -> (out: String)
    ensures
        out@ == enc_records(views(records@)),
{
    let mut out = String::new();
    out.push('[');
    let mut i: usize = 0;
    proof {
        assert(views(records@).subrange(0, 0) =~= Seq::<RecordV>::empty());
        assert(out@ =~= seq!['['] + enc_record_list(views(records@).subrange(0, 0)));
    }
    while i < records.len()
        invariant
            0 <= i <= records@.len(),
            records@.len() == views(records@).len(),
            out@ == seq!['['] + enc_record_list(views(records@).subrange(0, i as int)),
        decreases records@.len() - i,
    {
        if i > 0 {
            out.push(',');
        }
        let ghost vs = views(records@);
        let ghost pre = vs.subrange(0, i as int);
        push_record(&mut out, &records[i]);
        proof {
            assert(vs.subrange(0, i + 1) =~= pre.push(vs[i as int]));
            lemma_enc_record_list_push(pre, vs[i as int]);
            assert(out@ =~= seq!['['] + enc_record_list(vs.subrange(0, i + 1)));
        }
        i = i + 1;
    }
    out.push(']');
    proof {
        assert(views(records@).subrange(0, records@.len() as int) =~= views(records@));
        assert(out@ =~= enc_records(views(records@)));
    }
    out
}

// ---------- the parser: the grammar read back ----------

/// The literal `lit` stands at position `i` of `s`; yields the position past it.
pub open spec fn match_lit(s: Seq<char>, i: int, lit: Seq<char>) -> Option<int> {
    if 0 <= i && i + lit.len() <= s.len() && s.subrange(i, i + lit.len() as int) == lit {
        Some(i + lit.len() as int)
    } else {
        None
    }
}

/// Read an escaped string body up to and past its closing quote.
pub open spec fn parse_string_body(s: Seq<char>, i: int) -> Option<(Seq<char>, int)>
    decreases s.len() - i,
{
    if i < 0 || i >= s.len() {
        None
    } else if s[i] == '"' {
        Some((Seq::empty(), i + 1))
    } else if s[i] == '\\' {
        if i + 1 < s.len() && (s[i + 1] == '"' || s[i + 1] == '\\') {
            match parse_string_body(s, i + 2) {
                Some(p) => Some((seq![s[i + 1]] + p.0, p.1)),
                None => None,
            }
        } else {
            None
        }
    } else {
        match parse_string_body(s, i + 1) {
            Some(p) => Some((seq![s[i]] + p.0, p.1)),
            None => None,
        }
    }
}

/// Read decimal digits into `acc` until a non-digit; overflow rejects.
pub open spec fn parse_u64_from(s: Seq<char>, i: int, acc: u64) -> Option<(u64, int)>
    decreases s.len() - i,
{
    if i < 0 {
        None
    } else if i >= s.len() || !is_digit(s[i]) {
        Some((acc, i))
    } else if acc as int * 10 + digit_val(s[i]) as int <= u64::MAX as int {
        parse_u64_from(s, i + 1, (acc * 10 + digit_val(s[i])) as u64)
    } else {
        None
    }
}

/// Read a decimal number: at least one digit.
pub open spec fn parse_u64(s: Seq<char>, i: int) -> Option<(u64, int)> {
    if 0 <= i < s.len() && is_digit(s[i]) {
        parse_u64_from(s, i, 0)
    } else {
        None
    }
}

/// Read `true` or `false`.
pub open spec fn parse_bool(s: Seq<char>, i: int) -> Option<(bool, int)> {
    match match_lit(s, i, lit_true()) {
        Some(j) => Some((true, j)),
        None => match match_lit(s, i, lit_false()) {
            Some(j) => Some((false, j)),
            None => None,
        },
    }
}

/// Read one record object.
pub open spec fn parse_record(s: Seq<char>, i: int) -> Option<(RecordV, int)> {
    match match_lit(s, i, lit_obj_id()) {
        None => None,
        Some(j1) => match parse_u64(s, j1) {
            None => None,
            Some((id, j2)) => match match_lit(s, j2, lit_name() + seq!['"']) {
                None => None,
                Some(j3) => match parse_string_body(s, j3) {
                    None => None,
                    Some((name, j4)) => match match_lit(s, j4, lit_ingredients() + seq!['"']) {
                        None => None,
                        Some(j5) => match parse_string_body(s, j5) {
                            None => None,
                            Some((ingredients, j6)) => match match_lit(
                                s,
                                j6,
                                lit_instructions() + seq!['"'],
                            ) {
                                None => None,
                                Some(j7) => match parse_string_body(s, j7) {
                                    None => None,
                                    Some((instructions, j8)) => match match_lit(
                                        s,
                                        j8,
                                        lit_public(),
                                    ) {
                                        None => None,
                                        Some(j9) => match parse_bool(s, j9) {
                                            None => None,
                                            Some((public, j10)) => match match_lit(
                                                s,
                                                j10,
                                                seq!['}'],
                                            ) {
                                                None => None,
                                                Some(j11) => Some(
                                                    (
                                                        RecordV {
                                                            id,
                                                            name,
                                                            ingredients,
                                                            instructions,
                                                            public,
                                                        },
                                                        j11,
                                                    ),
                                                ),
                                            },
                                        },
                                    },
                                },
                            },
                        },
                    },
                },
            },
        },
    }
}

/// Read one or more comma-separated records.
pub open spec fn parse_record_list(s: Seq<char>, i: int) -> Option<(Seq<RecordV>, int)>
    decreases s.len() - i,
{
    match parse_record(s, i) {
        None => None,
        Some((r, j)) => if j < s.len() && s[j] == ',' {
            if i < j + 1 {
                match parse_record_list(s, j + 1) {
                    Some(p) => Some((seq![r] + p.0, p.1)),
                    None => None,
                }
            } else {
                None
            }
        } else {
            Some((seq![r], j))
        },
    }
}

/// Read a whole record array; the input must be consumed exactly.
pub open spec fn parse_records(s: Seq<char>) -> Option<Seq<RecordV>> {
    if s.len() >= 2 && s[0] == '[' {
        if s.len() == 2 && s[1] == ']' {
            Some(Seq::empty())
        } else {
            match parse_record_list(s, 1) {
                Some((rs, j)) => if j == s.len() - 1 && s[j] == ']' {
                    Some(rs)
                } else {
                    None
                },
                None => None,
            }
        }
    } else {
        None
    }
}

// ---------- the executable parser ----------

/// Match a literal, character by character.
pub(crate) fn match_lit_exec(s: &str, n: usize, i: usize, lit: &str) -> (r: Option<usize>)
    requires
        n == s@.len(),
    ensures
        r matches Some(j) ==> match_lit(s@, i as int, lit@) == Some(j as int) && j as int == i
            + lit@.len() && j <= n,
        r is None ==> match_lit(s@, i as int, lit@) is None,
{
    let m = lit.unicode_len();
    if i > n || m > n - i {
        return None;
    }
    let mut k: usize = 0;
    while k < m
        invariant
            n == s@.len(),
            m == lit@.len(),
            i + m <= n,
            0 <= k <= m,
            forall|t: int| 0 <= t < k ==> s@[i + t] == lit@[t],
        decreases m - k,
    {
        let a = s.get_char(i + k);
        let b = lit.get_char(k);
        if a != b {
            proof {
                assert(s@.subrange(i as int, i + m) != lit@) by {
                    assert(s@.subrange(i as int, i + m)[k as int] == s@[i + k]);
                }
            }
            return None;
        }
        k = k + 1;
    }
    proof {
        assert(s@.subrange(i as int, i + m) =~= lit@);
    }
    Some(i + m)
}

/// Prefixing a parsed string body with already-read characters.
pub open spec fn psb_prepend(pre: Seq<char>, o: Option<(Seq<char>, int)>) -> Option<
    (Seq<char>, int),
> {
    match o {
        Some(p) => Some((pre + p.0, p.1)),
        None => None,
    }
}

/// Read an escaped string body up to and past its closing quote.
pub(crate) fn parse_string_body_exec(s: &str, n: usize, i: usize) -> (r: Option<(String, usize)>)
    requires
        n == s@.len(),
    ensures
        r matches Some(p) ==> parse_string_body(s@, i as int) == Some((p.0@, p.1 as int)) && i
            < p.1 <= n,
        r is None ==> parse_string_body(s@, i as int) is None,
{
    if i >= n {
        return None;
    }
    let mut acc = String::new();
    let mut j = i;
    proof {
        assert(acc@ =~= Seq::<char>::empty());
        assert(psb_prepend(acc@, parse_string_body(s@, i as int)) == parse_string_body(
            s@,
            i as int,
        )) by {
            match parse_string_body(s@, i as int) {
                Some(p) => {
                    assert(acc@ + p.0 =~= p.0);
                },
                None => {},
            }
        }
    }
    while j < n
        invariant
            n == s@.len(),
            parse_string_body(s@, i as int) == psb_prepend(acc@, parse_string_body(s@, j as int)),
            i <= j <= n,
        decreases n - j,
    {
        let c = s.get_char(j);
        if c == '"' {
            proof {
                assert(acc@ + Seq::<char>::empty() =~= acc@);
            }
            return Some((acc, j + 1));
        }
        if c == '\\' {
            if j + 1 >= n {
                return None;
            }
            let c2 = s.get_char(j + 1);
            if c2 == '"' || c2 == '\\' {
                let ghost acc0 = acc@;
                acc.push(c2);
                proof {
                    match parse_string_body(s@, j as int + 2) {
                        Some(p) => {
                            assert(acc0 + (seq![s@[j as int + 1]] + p.0) =~= acc@ + p.0);
                        },
                        None => {},
                    }
                }
                j = j + 2;
            } else {
                return None;
            }
        } else {
            let ghost acc0 = acc@;
            acc.push(c);
            proof {
                match parse_string_body(s@, j as int + 1) {
                    Some(p) => {
                        assert(acc0 + (seq![s@[j as int]] + p.0) =~= acc@ + p.0);
                    },
                    None => {},
                }
            }
            j = j + 1;
        }
    }
    None
}

/// Read a decimal number: at least one digit, rejecting overflow.
pub(crate) fn parse_u64_exec(s: &str, n: usize, i: usize) -> (r: Option<(u64, usize)>)
    requires
        n == s@.len(),
    ensures
        r matches Some(p) ==> parse_u64(s@, i as int) == Some((p.0, p.1 as int)) && i < p.1
            <= n,
        r is None ==> parse_u64(s@, i as int) is None,
{
    if i >= n {
        return None;
    }
    let c0 = s.get_char(i);
    let v0 = c0 as u32;
    if !(48 <= v0 && v0 <= 57) {
        return None;
    }
    let mut acc: u64 = 0;
    let mut j = i;
    while j < n
        invariant
            n == s@.len(),
            i < n,
            is_digit(s@[i as int]),
            i <= j <= n,
            parse_u64_from(s@, i as int, 0) == parse_u64_from(s@, j as int, acc),
        decreases n - j,
    {
        let c = s.get_char(j);
        let v = c as u32;
        if !(48 <= v && v <= 57) {
            proof {
                assert(!is_digit(s@[j as int]));
                assert(parse_u64_from(s@, j as int, acc) == Some((acc, j as int)));
                assert(is_digit(s@[i as int]));
                assert(parse_u64(s@, i as int) == parse_u64_from(s@, i as int, 0));
            }
            return Some((acc, j));
        }
        let d = (v - 48) as u64;
        let wide: u128 = acc as u128 * 10 + d as u128;
        if wide > u64::MAX as u128 {
            return None;
        }
        acc = wide as u64;
        j = j + 1;
    }
    Some((acc, j))
}

/// Read `true` or `false`.
fn parse_bool_exec(s: &str, n: usize, i: usize) -> (r: Option<(bool, usize)>)
    requires
        n == s@.len(),
    ensures
        r matches Some(p) ==> parse_bool(s@, i as int) == Some((p.0, p.1 as int)) && i < p.1
            <= n,
        r is None ==> parse_bool(s@, i as int) is None,
{
    proof {
        reveal_strlit("true");
        reveal_strlit("false");
        assert("true"@ =~= lit_true());
        assert("false"@ =~= lit_false());
    }
    match match_lit_exec(s, n, i, "true") {
        Some(j) => Some((true, j)),
        None => match match_lit_exec(s, n, i, "false") {
            Some(j) => Some((false, j)),
            None => None,
        },
    }
}

/// Read one record object.
#[verifier::rlimit(60)]
fn parse_record_exec(s: &str, n: usize, i: usize) -> (r: Option<(Record, usize)>)
    requires
        n == s@.len(),
    ensures
        r matches Some(p) ==> parse_record(s@, i as int) == Some((p.0@, p.1 as int)) && i < p.1
            <= n,
        r is None ==> parse_record(s@, i as int) is None,
{
    proof {
        reveal_strlit("{\"id\":");
        assert("{\"id\":"@ =~= lit_obj_id());
        reveal_strlit(",\"name\":\"");
        assert(",\"name\":\""@ =~= lit_name() + seq!['"']);
        reveal_strlit(",\"ingredients\":\"");
        assert(",\"ingredients\":\""@ =~= lit_ingredients() + seq!['"']);
        reveal_strlit(",\"instructions\":\"");
        assert(",\"instructions\":\""@ =~= lit_instructions() + seq!['"']);
        reveal_strlit(",\"public\":");
        assert(",\"public\":"@ =~= lit_public());
        reveal_strlit("}");
        assert("}"@ =~= seq!['}']);
    }
    let j1 = match match_lit_exec(s, n, i, "{\"id\":") {
        Some(j) => j,
        None => {
            return None;
        },
    };
    let (id, j2) = match parse_u64_exec(s, n, j1) {
        Some(p) => p,
        None => {
            return None;
        },
    };
    let j3 = match match_lit_exec(s, n, j2, ",\"name\":\"") {
        Some(j) => j,
        None => {
            return None;
        },
    };
    let (name, j4) = match parse_string_body_exec(s, n, j3) {
        Some(p) => p,
        None => {
            return None;
        },
    };
    let j5 = match match_lit_exec(s, n, j4, ",\"ingredients\":\"") {
        Some(j) => j,
        None => {
            return None;
        },
    };
    let (ingredients, j6) = match parse_string_body_exec(s, n, j5) {
        Some(p) => p,
        None => {
            return None;
        },
    };
    let j7 = match match_lit_exec(s, n, j6, ",\"instructions\":\"") {
        Some(j) => j,
        None => {
            return None;
        },
    };
    let (instructions, j8) = match parse_string_body_exec(s, n, j7) {
        Some(p) => p,
        None => {
            return None;
        },
    };
    let j9 = match match_lit_exec(s, n, j8, ",\"public\":") {
        Some(j) => j,
        None => {
            return None;
        },
    };
    let (public, j10) = match parse_bool_exec(s, n, j9) {
        Some(p) => p,
        None => {
            return None;
        },
    };
    let j11 = match match_lit_exec(s, n, j10, "}") {
        Some(j) => j,
        None => {
            return None;
        },
    };
    Some((Record { id, name, ingredients, instructions, public }, j11))
}

/// Read one or more comma-separated records.
fn parse_record_list_exec(s: &str, n: usize, i: usize) -> (r: Option<(Vec<Record>, usize)>)
    requires
        n == s@.len(),
    ensures
        r matches Some(p) ==> parse_record_list(s@, i as int) == Some(
            (views(p.0@), p.1 as int),
        ),
        r is None ==> parse_record_list(s@, i as int) is None,
    decreases s@.len() - i,
{
    let (rec, j) = match parse_record_exec(s, n, i) {
        Some(p) => p,
        None => {
            return None;
        },
    };
    if j < n && s.get_char(j) == ',' {
        match parse_record_list_exec(s, n, j + 1) {
            Some((mut rest, k)) => {
                let ghost rest0 = rest@;
                rest.insert(0, rec);
                proof {
                    assert(views(rest@) =~= seq![rec@] + views(rest0));
                }
                Some((rest, k))
            },
            None => None,
        }
    } else {
        let mut one: Vec<Record> = Vec::new();
        one.push(rec);
        proof {
            assert(views(one@) =~= seq![rec@]);
        }
        Some((one, j))
    }
}

/// Decode a whole record array. Succeeds, with exactly the records whose
/// canonical encoding the input is, precisely when the input belongs to
/// the record-array grammar.
pub fn decode_records(s: &str) -> (r: Option<Vec<Record>>)
    ensures
        r matches Some(v) ==> parse_records(s@) == Some(views(v@)),
        r is None ==> parse_records(s@) is None,
{
    let n = s.unicode_len();
    if n < 2 || s.get_char(0) != '[' {
        return None;
    }
    if n == 2 && s.get_char(1) == ']' {
        let empty: Vec<Record> = Vec::new();
        proof {
            assert(views(empty@) =~= Seq::<RecordV>::empty());
        }
        return Some(empty);
    }
    match parse_record_list_exec(s, n, 1) {
        Some((v, j)) => {
            if j == n - 1 && s.get_char(j) == ']' {
                Some(v)
            } else {
                None
            }
        },
        None => None,
    }
}

// ---------- the round trip: the parser accepts every canonical encoding ----------

pub open spec fn pow10(k: nat) -> int
    decreases k,
{
    if k == 0 {
        1
    } else {
        10 * pow10((k - 1) as nat)
    }
}

/// The number a digit string denotes.
pub open spec fn digits_val(ds: Seq<char>) -> int
    decreases ds.len(),
{
    if ds.len() == 0 {
        0
    } else {
        digits_val(ds.drop_last()) * 10 + digit_val(ds.last()) as int
    }
}

pub open spec fn all_digits(ds: Seq<char>) -> bool {
    forall|k: int| 0 <= k < ds.len() ==> is_digit(#[trigger] ds[k])
}

pub proof fn lemma_pow10_pos(k: nat)
    ensures
        pow10(k) >= 1,
    decreases k,
{
    if k > 0 {
        lemma_pow10_pos((k - 1) as nat);
    }
}

pub proof fn lemma_digits_val_nonneg(ds: Seq<char>)
    requires
        all_digits(ds),
    ensures
        digits_val(ds) >= 0,
    decreases ds.len(),
{
    if ds.len() > 0 {
        lemma_digits_val_nonneg(ds.drop_last());
    }
}

/// The digits of `n` really are digits, and they denote `n`.
pub proof fn lemma_dec_digits_val(n: u64)
    ensures
        dec_digits(n).len() >= 1,
        all_digits(dec_digits(n)),
        digits_val(dec_digits(n)) == n,
    decreases n,
{
    if n < 10 {
        assert(dec_digits(n) =~= seq![digit_char(n)]);
        assert(is_digit(digit_char(n)));
        assert(digit_val(digit_char(n)) == n);
        assert(dec_digits(n).drop_last() =~= Seq::<char>::empty());
        assert(digits_val(Seq::<char>::empty()) == 0);
        assert(digits_val(dec_digits(n)) == 0 * 10 + digit_val(dec_digits(n).last()) as int);
    } else {
        lemma_dec_digits_val(n / 10);
        let ds = dec_digits(n);
        assert(ds =~= dec_digits(n / 10).push(digit_char(n % 10)));
        assert(ds.drop_last() =~= dec_digits(n / 10));
        assert(ds.last() == digit_char(n % 10));
        assert(digit_val(digit_char(n % 10)) == n % 10);
        assert(digits_val(ds) == (n / 10) * 10 + n % 10);
        assert((n / 10) * 10 + n % 10 == n) by (nonlinear_arith);
    }
}

/// Reading a digit string from the front: the leading digit carries a power
/// of ten for each digit after it.
pub proof fn lemma_digits_val_front(ds: Seq<char>)
    requires
        ds.len() >= 1,
    ensures
        digits_val(ds) == digit_val(ds[0]) as int * pow10((ds.len() - 1) as nat) + digits_val(
            ds.subrange(1, ds.len() as int),
        ),
    decreases ds.len(),
{
    let tail = ds.subrange(1, ds.len() as int);
    if ds.len() == 1 {
        assert(ds.drop_last() =~= Seq::<char>::empty());
        assert(tail =~= Seq::<char>::empty());
        assert(digits_val(Seq::<char>::empty()) == 0);
        assert(pow10(0nat) == 1);
        assert(ds.last() == ds[0]);
        assert(digits_val(ds) == 0 * 10 + digit_val(ds[0]) as int);
    } else {
        let head = ds.drop_last();
        lemma_digits_val_front(head);
        assert(head.subrange(1, head.len() as int) =~= tail.drop_last());
        assert(head[0] == ds[0]);
        assert(tail.last() == ds.last());
        let m = (ds.len() - 2) as nat;
        let d0 = digit_val(ds[0]) as int;
        assert(digits_val(head) == d0 * pow10(m) + digits_val(tail.drop_last()));
        assert(digits_val(ds) == digits_val(head) * 10 + digit_val(ds.last()) as int);
        assert((d0 * pow10(m) + digits_val(tail.drop_last())) * 10 == d0 * (10 * pow10(m))
            + digits_val(tail.drop_last()) * 10) by (nonlinear_arith);
        assert(pow10((ds.len() - 1) as nat) == 10 * pow10(m));
        assert(digits_val(tail) == digits_val(tail.drop_last()) * 10 + digit_val(
            tail.last(),
        ) as int);
        assert(digits_val(ds) == d0 * (10 * pow10(m)) + (digits_val(tail.drop_last()) * 10
            + digit_val(tail.last()) as int));
        assert(digits_val(ds) == d0 * pow10((ds.len() - 1) as nat) + digits_val(tail));
    }
}

/// The accumulator run: reading `m` digits multiplies the accumulator by
/// ten to the `m` and adds what the digits denote.
pub proof fn lemma_parse_digits(s: Seq<char>, i: int, m: nat, acc: u64)
    requires
        0 <= i,
        i + m <= s.len(),
        all_digits(s.subrange(i, i + m)),
        i + m == s.len() || !is_digit(s[i + m]),
        acc as int * pow10(m) + digits_val(s.subrange(i, i + m)) <= u64::MAX as int,
    ensures
        parse_u64_from(s, i, acc) == Some(
            (
                (acc as int * pow10(m) + digits_val(s.subrange(i, i + m))) as u64,
                i + m,
            ),
        ),
    decreases m,
{
    let ds = s.subrange(i, i + m);
    lemma_digits_val_nonneg(ds);
    lemma_pow10_pos(m);
    if m == 0 {
        assert(ds =~= Seq::<char>::empty());
        assert(acc as int * 1 == acc as int) by (nonlinear_arith);
        assert(parse_u64_from(s, i, acc) == Some((acc, i)));
    } else {
        assert(ds[0] == s[i]);
        assert(is_digit(s[i]));
        let d0 = digit_val(s[i]);
        let tail = ds.subrange(1, m as int);
        lemma_digits_val_front(ds);
        lemma_digits_val_nonneg(tail);
        lemma_pow10_pos((m - 1) as nat);
        let total = acc as int * pow10(m) + digits_val(ds);
        assert(pow10(m) == 10 * pow10((m - 1) as nat));
        assert(acc as int * pow10(m) == (acc as int * 10) * pow10((m - 1) as nat))
            by (nonlinear_arith)
            requires
                pow10(m) == 10 * pow10((m - 1) as nat),
        ;
        assert(digits_val(ds) == d0 as int * pow10((m - 1) as nat) + digits_val(tail));
        assert((acc as int * 10 + d0 as int) * pow10((m - 1) as nat) == (acc as int * 10) * pow10(
            (m - 1) as nat,
        ) + d0 as int * pow10((m - 1) as nat)) by (nonlinear_arith);
        let acc1 = acc as int * 10 + d0 as int;
        assert(total == acc1 * pow10((m - 1) as nat) + digits_val(tail));
        assert(acc1 <= acc1 * pow10((m - 1) as nat)) by (nonlinear_arith)
            requires
                acc1 >= 0,
                pow10((m - 1) as nat) >= 1,
        ;
        assert(acc1 <= total);
        assert(acc as int * 10 + digit_val(s[i]) as int <= u64::MAX as int);
        let accn = (acc * 10 + digit_val(s[i])) as u64;
        assert(parse_u64_from(s, i, acc) == parse_u64_from(s, i + 1, accn));
        assert(tail =~= s.subrange(i + 1, i + 1 + (m - 1)));
        lemma_parse_digits(s, i + 1, (m - 1) as nat, accn);
    }
}

/// A canonical number at position `i`, followed by a non-digit, parses to
/// exactly that number.
pub proof fn lemma_parse_u64_encode(s: Seq<char>, n: u64, i: int)
    requires
        0 <= i,
        i + dec_digits(n).len() <= s.len(),
        s.subrange(i, i + dec_digits(n).len()) == dec_digits(n),
        i + dec_digits(n).len() == s.len() || !is_digit(s[i + dec_digits(n).len()]),
    ensures
        parse_u64(s, i) == Some((n, i + dec_digits(n).len() as int)),
{
    let m = dec_digits(n).len();
    lemma_dec_digits_val(n);
    assert(s[i] == dec_digits(n)[0]);
    assert(is_digit(s[i]));
    lemma_pow10_pos(m);
    assert(0int * pow10(m) == 0) by (nonlinear_arith);
    lemma_parse_digits(s, i, m, 0);
}

/// Inside a region of `s` known to hold `e`, any slice of the region is the
/// matching slice of `e`.
pub proof fn lemma_subrange_of_match(s: Seq<char>, e: Seq<char>, i: int, a: int, b: int)
    requires
        0 <= i,
        i + e.len() <= s.len(),
        s.subrange(i, i + e.len()) == e,
        0 <= a <= b <= e.len(),
    ensures
        s.subrange(i + a, i + b) == e.subrange(a, b),
{
    assert forall|k: int| 0 <= k < b - a implies s.subrange(i + a, i + b)[k] == e.subrange(
        a,
        b,
    )[k] by {
        assert(s.subrange(i, i + e.len())[a + k] == s[i + a + k]);
    }
    assert(s.subrange(i + a, i + b) =~= e.subrange(a, b));
}

/// A canonical quoted body (escaped content, then the closing quote)
/// parses back to exactly the content.
pub proof fn lemma_parse_string_encode(s: Seq<char>, t: Seq<char>, i: int)
    requires
        0 <= i,
        i + esc(t).len() + 1 <= s.len(),
        forall|k: int| 0 <= k < esc(t).len() ==> s[i + k] == esc(t)[k],
        s[i + esc(t).len()] == '"',
    ensures
        parse_string_body(s, i) == Some((t, i + esc(t).len() + 1)),
    decreases t.len(),
{
    if t.len() == 0 {
        assert(esc(t).len() == 0);
        assert(s[i] == '"');
    } else {
        let c = t[0];
        let t2 = t.subrange(1, t.len() as int);
        assert(esc(t) == esc_char(c) + esc(t2));
        let w = esc_char(c).len() as int;
        assert forall|k: int| 0 <= k < esc(t2).len() implies s[i + w + k] == esc(t2)[k] by {
            assert(esc(t)[w + k] == esc(t2)[k]);
            assert(s[i + (w + k)] == esc(t)[w + k]);
        }
        assert(s[i + w + esc(t2).len()] == '"') by {
            assert(i + w + esc(t2).len() == i + esc(t).len());
        }
        lemma_parse_string_encode(s, t2, i + w);
        if c == '"' || c == '\\' {
            assert(esc(t)[0] == '\\');
            assert(esc(t)[1] == c);
            assert(s[i] == '\\');
            assert(s[i + 1] == c);
            assert(i + 1 < s.len());
            assert(parse_string_body(s, i) == Some((seq![c] + t2, i + esc(t).len() + 1)));
            assert(seq![c] + t2 =~= t);
        } else {
            assert(esc(t)[0] == c);
            assert(s[i] == c);
            assert(s[i] != '"' && s[i] != '\\');
            assert(parse_string_body(s, i) == Some((seq![c] + t2, i + esc(t).len() + 1)));
            assert(seq![c] + t2 =~= t);
        }
    }
}

/// The offsets of a record's parts inside its encoding.
#[verifier::rlimit(100)]
#[verifier::spinoff_prover]
pub proof fn lemma_record_pieces(s: Seq<char>, r: RecordV, i: int)
    requires
        0 <= i,
        i + enc_record(r).len() <= s.len(),
        s.subrange(i, i + enc_record(r).len()) == enc_record(r),
    ensures
        ({
            let d = dec_digits(r.id);
            let a1 = 6int;
            let a2 = a1 + d.len();
            let a3 = a2 + 9;
            let a4 = a3 + esc(r.name).len() + 1;
            let a5 = a4 + 16;
            let a6 = a5 + esc(r.ingredients).len() + 1;
            let a7 = a6 + 17;
            let a8 = a7 + esc(r.instructions).len() + 1;
            let a9 = a8 + 10;
            let a10 = a9 + bool_lit(r.public).len();
            let a11 = a10 + 1;
            &&& enc_record(r).len() == a11
            &&& s.subrange(i, i + a1) == lit_obj_id()
            &&& s.subrange(i + a1, i + a2) == d
            &&& s[i + a2] == ','
            &&& s.subrange(i + a2, i + a3) == lit_name() + seq!['"']
            &&& s.subrange(i + a3, i + a4) == esc(r.name) + seq!['"']
            &&& s.subrange(i + a4, i + a5) == lit_ingredients() + seq!['"']
            &&& s.subrange(i + a5, i + a6) == esc(r.ingredients) + seq!['"']
            &&& s.subrange(i + a6, i + a7) == lit_instructions() + seq!['"']
            &&& s.subrange(i + a7, i + a8) == esc(r.instructions) + seq!['"']
            &&& s.subrange(i + a8, i + a9) == lit_public()
            &&& s.subrange(i + a9, i + a10) == bool_lit(r.public)
            &&& s.subrange(i + a10, i + a11) == seq!['}']
        }),
{
    let e = enc_record(r);
    let d = dec_digits(r.id);
    let b = bool_lit(r.public);
    let a1 = 6int;
    let a2 = a1 + d.len();
    let a3 = a2 + 9;
    let a4 = a3 + esc(r.name).len() + 1;
    let a5 = a4 + 16;
    let a6 = a5 + esc(r.ingredients).len() + 1;
    let a7 = a6 + 17;
    let a8 = a7 + esc(r.instructions).len() + 1;
    let a9 = a8 + 10;
    let a10 = a9 + b.len();
    let a11 = a10 + 1;
    assert(e.len() == a11);
    assert(e =~= lit_obj_id() + d + (lit_name() + seq!['"']) + (esc(r.name) + seq!['"']) + (
    lit_ingredients() + seq!['"']) + (esc(r.ingredients) + seq!['"']) + (lit_instructions()
        + seq!['"']) + (esc(r.instructions) + seq!['"']) + lit_public() + b + seq!['}']);
    lemma_subrange_of_match(s, e, i, 0, a1);
    assert(e.subrange(0, a1) =~= lit_obj_id());
    lemma_subrange_of_match(s, e, i, a1, a2);
    assert(e.subrange(a1, a2) =~= d);
    lemma_subrange_of_match(s, e, i, a2, a3);
    assert(e.subrange(a2, a3) =~= lit_name() + seq!['"']);
    lemma_subrange_of_match(s, e, i, a3, a4);
    assert(e.subrange(a3, a4) =~= esc(r.name) + seq!['"']);
    lemma_subrange_of_match(s, e, i, a4, a5);
    assert(e.subrange(a4, a5) =~= lit_ingredients() + seq!['"']);
    lemma_subrange_of_match(s, e, i, a5, a6);
    assert(e.subrange(a5, a6) =~= esc(r.ingredients) + seq!['"']);
    lemma_subrange_of_match(s, e, i, a6, a7);
    assert(e.subrange(a6, a7) =~= lit_instructions() + seq!['"']);
    lemma_subrange_of_match(s, e, i, a7, a8);
    assert(e.subrange(a7, a8) =~= esc(r.instructions) + seq!['"']);
    lemma_subrange_of_match(s, e, i, a8, a9);
    assert(e.subrange(a8, a9) =~= lit_public());
    lemma_subrange_of_match(s, e, i, a9, a10);
    assert(e.subrange(a9, a10) =~= b);
    lemma_subrange_of_match(s, e, i, a10, a11);
    assert(e.subrange(a10, a11) =~= seq!['}']);
    assert(s[i + a2] == ',') by {
        assert(s.subrange(i + a2, i + a3)[0] == s[i + a2]);
        assert((lit_name() + seq!['"'])[0] == ',');
    }
}

/// A quoted value: the escaped content with its closing quote in place
/// parses back to the content.
pub proof fn lemma_parse_quoted(s: Seq<char>, t: Seq<char>, i: int)
    requires
        0 <= i,
        i + esc(t).len() + 1 <= s.len(),
        s.subrange(i, i + esc(t).len() + 1) == esc(t) + seq!['"'],
    ensures
        parse_string_body(s, i) == Some((t, i + esc(t).len() + 1)),
{
    let w = esc(t).len() as int;
    assert forall|k: int| 0 <= k < w implies s[i + k] == esc(t)[k] by {
        assert(s.subrange(i, i + w + 1)[k] == s[i + k]);
        assert((esc(t) + seq!['"'])[k] == esc(t)[k]);
    }
    assert(s[i + w] == '"') by {
        assert(s.subrange(i, i + w + 1)[w] == s[i + w]);
        assert((esc(t) + seq!['"'])[w] == '"');
    }
    lemma_parse_string_encode(s, t, i);
}

/// A canonical record at position `i` parses back to exactly that record.
#[verifier::rlimit(100)]
pub proof fn lemma_parse_record_encode(s: Seq<char>, r: RecordV, i: int)
    requires
        0 <= i,
        i + enc_record(r).len() <= s.len(),
        s.subrange(i, i + enc_record(r).len()) == enc_record(r),
    ensures
        parse_record(s, i) == Some((r, i + enc_record(r).len())),
{
    let d = dec_digits(r.id);
    let b = bool_lit(r.public);
    let a1 = 6int;
    let a2 = a1 + d.len();
    let a3 = a2 + 9;
    let a4 = a3 + esc(r.name).len() + 1;
    let a5 = a4 + 16;
    let a6 = a5 + esc(r.ingredients).len() + 1;
    let a7 = a6 + 17;
    let a8 = a7 + esc(r.instructions).len() + 1;
    let a9 = a8 + 10;
    let a10 = a9 + b.len();
    let a11 = a10 + 1;
    lemma_record_pieces(s, r, i);

    assert(match_lit(s, i, lit_obj_id()) == Some(i + a1));
    assert(!is_digit(s[i + a2]));
    lemma_parse_u64_encode(s, r.id, i + a1);
    assert(parse_u64(s, i + a1) == Some((r.id, i + a2)));
    assert(match_lit(s, i + a2, lit_name() + seq!['"']) == Some(i + a3));
    lemma_parse_quoted(s, r.name, i + a3);
    assert(match_lit(s, i + a4, lit_ingredients() + seq!['"']) == Some(i + a5));
    lemma_parse_quoted(s, r.ingredients, i + a5);
    assert(match_lit(s, i + a6, lit_instructions() + seq!['"']) == Some(i + a7));
    lemma_parse_quoted(s, r.instructions, i + a7);
    assert(match_lit(s, i + a8, lit_public()) == Some(i + a9));
    if r.public {
        assert(s.subrange(i + a9, i + a9 + 4) == lit_true());
        assert(parse_bool(s, i + a9) == Some((true, i + a10)));
    } else {
        assert(s.subrange(i + a9, i + a10) == lit_false());
        if i + a9 + 4 <= s.len() && s.subrange(i + a9, i + a9 + 4) == lit_true() {
            assert(s.subrange(i + a9, i + a10)[0] == s[i + a9]);
            assert(s.subrange(i + a9, i + a9 + 4)[0] == s[i + a9]);
            assert(false);
        }
        assert(match_lit(s, i + a9, lit_true()) is None);
        assert(parse_bool(s, i + a9) == Some((false, i + a10)));
    }
    assert(match_lit(s, i + a10, seq!['}']) == Some(i + a11));

    assert(r == RecordV {
        id: r.id,
        name: r.name,
        ingredients: r.ingredients,
        instructions: r.instructions,
        public: r.public,
    });
    assert(parse_record(s, i) == Some((r, i + a11)));
}

/// A canonical record list at position `i`, followed by the closing
/// bracket, parses back to exactly those records.
#[verifier::rlimit(100)]
#[verifier::spinoff_prover]
pub proof fn lemma_parse_record_list_encode(s: Seq<char>, rs: Seq<RecordV>, i: int)
    requires
        0 <= i,
        rs.len() >= 1,
        i + enc_record_list(rs).len() + 1 <= s.len(),
        s.subrange(i, i + enc_record_list(rs).len()) == enc_record_list(rs),
        s[i + enc_record_list(rs).len()] == ']',
    ensures
        parse_record_list(s, i) == Some((rs, i + enc_record_list(rs).len())),
    decreases rs.len(),
{
    let e = enc_record_list(rs);
    let r0 = rs[0];
    if rs.len() == 1 {
        assert(e == enc_record(r0));
        lemma_parse_record_encode(s, r0, i);
        let j = i + enc_record(r0).len();
        assert(s[j] == ']');
        assert(seq![r0] =~= rs);
        assert(parse_record_list(s, i) == Some((rs, j)));
    } else {
        let rest = rs.subrange(1, rs.len() as int);
        assert(e == enc_record(r0) + seq![','] + enc_record_list(rest));
        lemma_subrange_of_match(s, e, i, 0, enc_record(r0).len() as int);
        assert(e.subrange(0, enc_record(r0).len() as int) =~= enc_record(r0));
        lemma_parse_record_encode(s, r0, i);
        let j = i + enc_record(r0).len();
        assert(e[enc_record(r0).len() as int] == ',');
        assert(s[j] == ',') by {
            assert(s.subrange(i, i + e.len())[enc_record(r0).len() as int] == s[j]);
        }
        let w = enc_record(r0).len() + 1;
        lemma_subrange_of_match(s, e, i, w as int, e.len() as int);
        assert(e.subrange(w as int, e.len() as int) =~= enc_record_list(rest));
        assert(s[j + 1 + enc_record_list(rest).len()] == ']') by {
            assert(j + 1 + enc_record_list(rest).len() == i + e.len());
        }
        lemma_parse_record_list_encode(s, rest, j + 1);
        assert(j < s.len());
        assert(i < j + 1);
        assert(seq![r0] + rest =~= rs);
        assert(parse_record_list(s, i) == Some((rs, i + e.len())));
    }
}

/// The round trip: the parser accepts every canonical encoding and yields
/// exactly the records that were encoded. Together with the contracts of
/// `encode_records` and `decode_records`, decoding an encoded store always
/// succeeds and returns the same records.
#[verifier::rlimit(50)]
pub proof fn lemma_parse_encode_records(rs: Seq<RecordV>)
    ensures
        parse_records(enc_records(rs)) == Some(rs),
{
    let s = enc_records(rs);
    let e = enc_record_list(rs);
    assert(s.len() == e.len() + 2);
    assert(s[0] == '[');
    assert(s[s.len() - 1] == ']');
    if rs.len() == 0 {
        assert(e.len() == 0);
        assert(s.len() == 2);
        assert(s[1] == ']');
        assert(parse_records(s) == Some(Seq::<RecordV>::empty()));
        assert(rs =~= Seq::<RecordV>::empty());
    } else {
        assert(e.len() >= 1) by {
            if rs.len() == 1 {
                assert(e == enc_record(rs[0]));
            }
        }
        assert(s.len() > 2);
        assert(s.subrange(1, 1 + e.len() as int) =~= e);
        assert(s[1 + e.len() as int] == ']');
        lemma_parse_record_list_encode(s, rs, 1);
        assert(parse_record_list(s, 1) == Some((rs, 1 + e.len() as int)));
        assert(1 + e.len() as int == s.len() - 1);
        assert(parse_records(s) == Some(rs));
    }
}

} // verus!

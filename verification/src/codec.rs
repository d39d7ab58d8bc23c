//! The canonical text form of a credential collection.
//!
//! The store is persisted as one JSON object, `{"entries":[...]}`, each entry
//! an object with the fields `id`, `label`, `username`, `secret` and
//! `metadata` in that order.  String values escape only `"` and `\`.  The
//! serializer and the parser are both specified here, and parsing a
//! serialized collection is proved to give the collection back.

use vstd::prelude::*;

use crate::models::{EntryModel, PasswordEntry, PasswordStore};
use crate::strutil::{dec_of, spec_digits, str_to_chars, u32_to_string};

verus! {

// ---------------------------------------------------------------------------
// String escaping
// ---------------------------------------------------------------------------

/// How one character is written inside a quoted string.
pub open spec fn esc_char(c: char) -> Seq<char> {
    if c == '"' || c == '\\' {
        seq!['\\', c]
    } else {
        seq![c]
    }
}

/// A string's characters with `"` and `\` escaped.
pub open spec fn esc(s: Seq<char>) -> Seq<char>
    decreases s.len(),
{
    if s.len() == 0 {
        Seq::empty()
    } else {
        esc_char(s[0]) + esc(s.drop_first())
    }
}

/// Escaping distributes over appending one character.
pub proof fn lemma_esc_push(s: Seq<char>, c: char)
    ensures
        esc(s.push(c)) == esc(s) + esc_char(c),
    decreases s.len(),
{
    if s.len() == 0 {
        assert(s.push(c)[0] == c);
        assert(s.push(c).drop_first() =~= Seq::<char>::empty());
        assert(esc(s.push(c)) == esc_char(c) + esc(Seq::<char>::empty()));
        assert(esc(s.push(c)) =~= esc(s) + esc_char(c));
    } else {
        assert(s.push(c)[0] == s[0]);
        assert(s.push(c).drop_first() =~= s.drop_first().push(c));
        lemma_esc_push(s.drop_first(), c);
        assert(esc(s.push(c)) =~= esc(s) + esc_char(c));
    }
}

/// Reading a quoted string body: the content up to the closing quote,
/// unescaped, and what follows the closing quote.
pub open spec fn scan_str(s: Seq<char>) -> Option<(Seq<char>, Seq<char>)>
    decreases s.len(),
{
    if s.len() == 0 {
        None
    } else if s[0] == '"' {
        Some((Seq::empty(), s.drop_first()))
    } else if s[0] == '\\' {
        if s.len() >= 2 && (s[1] == '"' || s[1] == '\\') {
            match scan_str(s.skip(2)) {
                Some(tr) => Some((seq![s[1]] + tr.0, tr.1)),
                None => None,
            }
        } else {
            None
        }
    } else {
        match scan_str(s.drop_first()) {
            Some(tr) => Some((seq![s[0]] + tr.0, tr.1)),
            None => None,
        }
    }
}

/// Reading an escaped string body gives the original content back.
pub proof fn lemma_scan_esc(t: Seq<char>, rest: Seq<char>)
    ensures
        scan_str(esc(t) + seq!['"'] + rest) == Some((t, rest)),
    decreases t.len(),
{
    let s = esc(t) + seq!['"'] + rest;
    if t.len() == 0 {
        assert(esc(t) =~= Seq::<char>::empty());
        assert(s =~= seq!['"'] + rest);
        assert(s[0] == '"');
        assert(s.drop_first() =~= rest);
        assert(scan_str(s) == Some((Seq::<char>::empty(), rest)));
        assert(t =~= Seq::<char>::empty());
    } else {
        let c = t[0];
        let t2 = t.drop_first();
        assert(esc(t) == esc_char(c) + esc(t2));
        lemma_scan_esc(t2, rest);
        if c == '"' || c == '\\' {
            assert(s[0] == '\\');
            assert(s[1] == c);
            assert(s.len() >= 2);
            assert(s.skip(2) =~= esc(t2) + seq!['"'] + rest);
            assert(seq![c] + t2 =~= t);
        } else {
            assert(s[0] == c);
            assert(s[0] != '"' && s[0] != '\\');
            assert(s.drop_first() =~= esc(t2) + seq!['"'] + rest);
            assert(seq![c] + t2 =~= t);
        }
    }
}

// ---------------------------------------------------------------------------
// Decimal numbers
// ---------------------------------------------------------------------------

/// Whether a character is a decimal digit.
pub open spec fn is_digit_char(c: char) -> bool {
    48 <= c as u32 <= 57
}

/// The value of one digit character.
pub open spec fn digit_val(c: char) -> nat {
    (c as u32 - 48) as nat
}

/// Splits a sequence into its leading run of digits and the rest.
pub open spec fn scan_digits(s: Seq<char>) -> (Seq<char>, Seq<char>)
    decreases s.len(),
{
    if s.len() > 0 && is_digit_char(s[0]) {
        let dr = scan_digits(s.drop_first());
        (seq![s[0]] + dr.0, dr.1)
    } else {
        (Seq::empty(), s)
    }
}

/// The value of a digit run, most significant digit first.
pub open spec fn digits_value(d: Seq<char>) -> nat
    decreases d.len(),
{
    if d.len() == 0 {
        0
    } else {
        digits_value(d.drop_last()) * 10 + digit_val(d.last())
    }
}

/// Reads a decimal number that fits in a `u32`.
pub open spec fn parse_u32(s: Seq<char>) -> Option<(u32, Seq<char>)> {
    let dr = scan_digits(s);
    if dr.0.len() == 0 || digits_value(dr.0) > 0xFFFF_FFFF {
        None
    } else {
        Some((digits_value(dr.0) as u32, dr.1))
    }
}

/// Each digit character stands for its own value.
pub proof fn lemma_digit_chars()
    ensures
        forall|k: int|
            0 <= k < 10 ==> is_digit_char(#[trigger] spec_digits()[k]) && digit_val(
                spec_digits()[k],
            ) == k as nat,
{
    reveal_strlit("0123456789");
    assert forall|k: int|
        0 <= k < 10 implies is_digit_char(#[trigger] spec_digits()[k]) && digit_val(
        spec_digits()[k],
    ) == k as nat by {
        if k == 0 {
            assert(spec_digits()[0] == '0');
        } else if k == 1 {
            assert(spec_digits()[1] == '1');
        } else if k == 2 {
            assert(spec_digits()[2] == '2');
        } else if k == 3 {
            assert(spec_digits()[3] == '3');
        } else if k == 4 {
            assert(spec_digits()[4] == '4');
        } else if k == 5 {
            assert(spec_digits()[5] == '5');
        } else if k == 6 {
            assert(spec_digits()[6] == '6');
        } else if k == 7 {
            assert(spec_digits()[7] == '7');
        } else if k == 8 {
            assert(spec_digits()[8] == '8');
        } else {
            assert(spec_digits()[9] == '9');
        }
    }
}

/// The decimal rendering of `n` is all digits and reads back as `n`.
pub proof fn lemma_dec_of_digits(n: nat)
    ensures
        dec_of(n).len() >= 1,
        forall|i: int| 0 <= i < dec_of(n).len() ==> is_digit_char(#[trigger] dec_of(n)[i]),
        digits_value(dec_of(n)) == n,
    decreases n,
{
    lemma_digit_chars();
    reveal_strlit("0123456789");
    if n < 10 {
        assert(dec_of(n) == seq![spec_digits()[n as int]]);
        assert(dec_of(n).drop_last() =~= Seq::<char>::empty());
        assert(dec_of(n).last() == spec_digits()[n as int]);
        assert(digits_value(dec_of(n).drop_last()) == 0);
        assert(digits_value(dec_of(n)) == digit_val(spec_digits()[n as int]));
    } else {
        lemma_dec_of_digits(n / 10);
        let d = dec_of(n / 10);
        let c = spec_digits()[(n % 10) as int];
        assert(dec_of(n) == d + seq![c]);
        assert(dec_of(n).drop_last() =~= d);
        assert(dec_of(n).last() == c);
        assert(digits_value(dec_of(n)) == digits_value(d) * 10 + digit_val(c));
        vstd::arithmetic::div_mod::lemma_fundamental_div_mod(n as int, 10);
    }
}

/// Scanning a digit run followed by a non-digit splits exactly there.
pub proof fn lemma_scan_digits_exact(d: Seq<char>, rest: Seq<char>)
    requires
        forall|i: int| 0 <= i < d.len() ==> is_digit_char(#[trigger] d[i]),
        rest.len() == 0 || !is_digit_char(rest[0]),
    ensures
        scan_digits(d + rest) == (d, rest),
    decreases d.len(),
{
    let s = d + rest;
    if d.len() == 0 {
        assert(s =~= rest);
        assert(scan_digits(s).0 =~= d);
    } else {
        assert(s[0] == d[0]);
        assert(s.drop_first() =~= d.drop_first() + rest);
        lemma_scan_digits_exact(d.drop_first(), rest);
        assert(scan_digits(s).0 =~= d);
    }
}

/// Reading back the decimal rendering of a `u32` gives the number.
pub proof fn lemma_parse_u32_dec(n: u32, rest: Seq<char>)
    requires
        rest.len() == 0 || !is_digit_char(rest[0]),
    ensures
        parse_u32(dec_of(n as nat) + rest) == Some((n, rest)),
{
    lemma_dec_of_digits(n as nat);
    lemma_scan_digits_exact(dec_of(n as nat), rest);
}

// ---------------------------------------------------------------------------
// Entries and the whole store
// ---------------------------------------------------------------------------

/// Consumes an exact literal prefix.
pub open spec fn expect(s: Seq<char>, lit: Seq<char>) -> Option<Seq<char>> {
    if lit.len() <= s.len() && s.take(lit.len() as int) == lit {
        Some(s.skip(lit.len() as int))
    } else {
        None
    }
}

/// Consuming a literal off itself leaves the rest.
pub proof fn lemma_expect(lit: Seq<char>, rest: Seq<char>)
    ensures
        expect(lit + rest, lit) == Some(rest),
{
    let s = lit + rest;
    assert(s.take(lit.len() as int) =~= lit);
    assert(s.skip(lit.len() as int) =~= rest);
}

/// The canonical text of one entry.
pub open spec fn ser_entry_chars(e: EntryModel) -> Seq<char> {
    "{\"id\":"@ + dec_of(e.id as nat) + ",\"label\":\""@ + esc(e.label) + seq!['"']
        + ",\"username\":\""@ + esc(e.username) + seq!['"'] + ",\"secret\":\""@ + esc(e.secret)
        + seq!['"'] + ",\"metadata\":\""@ + esc(e.metadata) + seq!['"'] + "}"@
}

/// The canonical text of the entries after the first: each preceded by a comma.
pub open spec fn ser_more_chars(es: Seq<EntryModel>) -> Seq<char>
    decreases es.len(),
{
    if es.len() == 0 {
        Seq::empty()
    } else {
        seq![','] + ser_entry_chars(es[0]) + ser_more_chars(es.drop_first())
    }
}

/// The canonical text of a comma-separated entry list.
pub open spec fn ser_entries_chars(es: Seq<EntryModel>) -> Seq<char> {
    if es.len() == 0 {
        Seq::empty()
    } else {
        ser_entry_chars(es[0]) + ser_more_chars(es.drop_first())
    }
}

/// The canonical text of the whole store.
pub open spec fn ser_store_chars(es: Seq<EntryModel>) -> Seq<char> {
    "{\"entries\":["@ + ser_entries_chars(es) + "]}"@
}

/// Reads one entry object.
pub open spec fn parse_entry(s: Seq<char>) -> Option<(EntryModel, Seq<char>)> {
    match expect(s, "{\"id\":"@) {
        None => None,
        Some(s1) => match parse_u32(s1) {
            None => None,
            Some((id, s2)) => match expect(s2, ",\"label\":\""@) {
                None => None,
                Some(s3) => match scan_str(s3) {
                    None => None,
                    Some((label, s4)) => match expect(s4, ",\"username\":\""@) {
                        None => None,
                        Some(s5) => match scan_str(s5) {
                            None => None,
                            Some((username, s6)) => match expect(s6, ",\"secret\":\""@) {
                                None => None,
                                Some(s7) => match scan_str(s7) {
                                    None => None,
                                    Some((secret, s8)) => match expect(s8, ",\"metadata\":\""@) {
                                        None => None,
                                        Some(s9) => match scan_str(s9) {
                                            None => None,
                                            Some((metadata, s10)) => match expect(s10, "}"@) {
                                                None => None,
                                                Some(s11) => Some(
                                                    (
                                                        EntryModel {
                                                            id,
                                                            label,
                                                            username,
                                                            secret,
                                                            metadata,
                                                        },
                                                        s11,
                                                    ),
                                                ),
                                            },
                                        },
                                    },
                                },
                            },
                        },
                    },
                },
            },
        },
    }
}

/// Reads the entries after the first, each preceded by a comma.
pub open spec fn parse_more_entries(s: Seq<char>) -> Option<(Seq<EntryModel>, Seq<char>)>
    decreases s.len(),
{
    if s.len() > 0 && s[0] == ',' {
        match parse_entry(s.drop_first()) {
            None => None,
            Some((e, r)) => if r.len() < s.len() {
                match parse_more_entries(r) {
                    None => None,
                    Some((es, rr)) => Some((seq![e] + es, rr)),
                }
            } else {
                None
            },
        }
    } else {
        Some((Seq::empty(), s))
    }
}

/// Reads a whole store text; the text must carry nothing else.
pub open spec fn parse_store_chars(s: Seq<char>) -> Option<Seq<EntryModel>> {
    match expect(s, "{\"entries\":["@) {
        None => None,
        Some(s1) => if s1 == "]}"@ {
            Some(Seq::empty())
        } else {
            match parse_entry(s1) {
                None => None,
                Some((e, r)) => match parse_more_entries(r) {
                    None => None,
                    Some((es, rr)) => if rr == "]}"@ {
                        Some(seq![e] + es)
                    } else {
                        None
                    },
                },
            }
        },
    }
}

/// Reading back the canonical text of one entry gives the entry.
#[verifier::rlimit(100)]
#[verifier::spinoff_prover]
pub proof fn lemma_parse_entry_ser(e: EntryModel, rest: Seq<char>)
    ensures
        parse_entry(ser_entry_chars(e) + rest) == Some((e, rest)),
{
    let l_id = "{\"id\":"@;
    let l_label = ",\"label\":\""@;
    let l_username = ",\"username\":\""@;
    let l_secret = ",\"secret\":\""@;
    let l_metadata = ",\"metadata\":\""@;
    let l_close = "}"@;
    let s = ser_entry_chars(e) + rest;
    let t1 = dec_of(e.id as nat) + (l_label + (esc(e.label) + seq!['"'] + (l_username + (esc(
        e.username,
    ) + seq!['"'] + (l_secret + (esc(e.secret) + seq!['"'] + (l_metadata + (esc(e.metadata)
        + seq!['"'] + (l_close + rest)))))))));
    assert(s =~= l_id + t1);
    lemma_expect(l_id, t1);
    reveal_strlit(",\"label\":\"");
    assert(!is_digit_char(l_label[0]));
    let t2 = l_label + (esc(e.label) + seq!['"'] + (l_username + (esc(e.username) + seq!['"'] + (
    l_secret + (esc(e.secret) + seq!['"'] + (l_metadata + (esc(e.metadata) + seq!['"'] + (l_close
        + rest))))))));
    assert(t1 =~= dec_of(e.id as nat) + t2);
    assert(t2.len() == 0 || !is_digit_char(t2[0]));
    lemma_parse_u32_dec(e.id, t2);
    let t3 = esc(e.label) + seq!['"'] + (l_username + (esc(e.username) + seq!['"'] + (l_secret + (
    esc(e.secret) + seq!['"'] + (l_metadata + (esc(e.metadata) + seq!['"'] + (l_close + rest)))))));
    assert(t2 =~= l_label + t3);
    lemma_expect(l_label, t3);
    let t4 = l_username + (esc(e.username) + seq!['"'] + (l_secret + (esc(e.secret) + seq!['"'] + (
    l_metadata + (esc(e.metadata) + seq!['"'] + (l_close + rest))))));
    lemma_scan_esc(e.label, t4);
    let t5 = esc(e.username) + seq!['"'] + (l_secret + (esc(e.secret) + seq!['"'] + (l_metadata + (
    esc(e.metadata) + seq!['"'] + (l_close + rest)))));
    assert(t4 =~= l_username + t5);
    lemma_expect(l_username, t5);
    let t6 = l_secret + (esc(e.secret) + seq!['"'] + (l_metadata + (esc(e.metadata) + seq!['"'] + (
    l_close + rest))));
    lemma_scan_esc(e.username, t6);
    let t7 = esc(e.secret) + seq!['"'] + (l_metadata + (esc(e.metadata) + seq!['"'] + (l_close
        + rest)));
    assert(t6 =~= l_secret + t7);
    lemma_expect(l_secret, t7);
    let t8 = l_metadata + (esc(e.metadata) + seq!['"'] + (l_close + rest));
    lemma_scan_esc(e.secret, t8);
    let t9 = esc(e.metadata) + seq!['"'] + (l_close + rest);
    assert(t8 =~= l_metadata + t9);
    lemma_expect(l_metadata, t9);
    let t10 = l_close + rest;
    lemma_scan_esc(e.metadata, t10);
    lemma_expect(l_close, rest);
}

/// Reading back the canonical text of the later entries gives them.
pub proof fn lemma_parse_more_ser(es: Seq<EntryModel>, rest: Seq<char>)
    requires
        rest.len() > 0 && rest[0] != ',',
    ensures
        parse_more_entries(ser_more_chars(es) + rest) == Some((es, rest)),
    decreases es.len(),
{
    let s = ser_more_chars(es) + rest;
    if es.len() == 0 {
        assert(s =~= rest);
        assert(parse_more_entries(s) == Some((Seq::<EntryModel>::empty(), rest)));
        assert(Seq::<EntryModel>::empty() =~= es);
    } else {
        let e = es[0];
        let es2 = es.drop_first();
        let r = ser_more_chars(es2) + rest;
        assert(s[0] == ',');
        assert(s.drop_first() =~= ser_entry_chars(e) + r);
        lemma_parse_entry_ser(e, r);
        assert(r.len() < s.len()) by {
            reveal_strlit("{\"id\":");
            assert(ser_entry_chars(e).len() >= 1);
        }
        lemma_parse_more_ser(es2, rest);
        assert(seq![e] + es2 =~= es);
    }
}

/// The codec law: reading back the canonical text of any collection gives
/// exactly that collection.
pub proof fn lemma_parse_ser_roundtrip(es: Seq<EntryModel>)
    ensures
        parse_store_chars(ser_store_chars(es)) == Some(es),
{
    let l_open = "{\"entries\":["@;
    let l_end = "]}"@;
    let s = ser_store_chars(es);
    let body = ser_entries_chars(es) + l_end;
    assert(s =~= l_open + body);
    lemma_expect(l_open, body);
    reveal_strlit("]}");
    if es.len() == 0 {
        assert(body =~= l_end);
    } else {
        reveal_strlit("{\"id\":");
        assert(ser_entry_chars(es[0])[0] == '{');
        assert(body[0] == '{');
        assert(body != l_end);
        let r = ser_more_chars(es.drop_first()) + l_end;
        assert(body =~= ser_entry_chars(es[0]) + r);
        lemma_parse_entry_ser(es[0], r);
        assert(l_end[0] == ']');
        lemma_parse_more_ser(es.drop_first(), l_end);
        assert(seq![es[0]] + es.drop_first() =~= es);
    }
}

/// Appending one entry extends the tail text by a comma and the entry.
pub proof fn lemma_ser_more_push(es: Seq<EntryModel>, e: EntryModel)
    ensures
        ser_more_chars(es.push(e)) == ser_more_chars(es) + (seq![','] + ser_entry_chars(e)),
    decreases es.len(),
{
    if es.len() == 0 {
        assert(es.push(e)[0] == e);
        assert(es.push(e).drop_first() =~= Seq::<EntryModel>::empty());
        assert(ser_more_chars(es) == Seq::<char>::empty());
        assert(ser_more_chars(Seq::<EntryModel>::empty()) == Seq::<char>::empty());
        assert(ser_more_chars(es.push(e)) == seq![','] + ser_entry_chars(e) + ser_more_chars(
            Seq::<EntryModel>::empty(),
        ));
        assert(ser_more_chars(es.push(e)) =~= ser_more_chars(es) + (seq![','] + ser_entry_chars(
        e)));
    } else {
        assert(es.push(e)[0] == es[0]);
        assert(es.push(e).drop_first() =~= es.drop_first().push(e));
        lemma_ser_more_push(es.drop_first(), e);
        assert(ser_more_chars(es.push(e)) == seq![','] + ser_entry_chars(es[0]) + (ser_more_chars(
            es.drop_first(),
        ) + (seq![','] + ser_entry_chars(e))));
        assert(ser_more_chars(es.push(e)) =~= ser_more_chars(es) + (seq![','] + ser_entry_chars(
        e)));
    }
}

/// Appending one entry extends the list text by the entry, with a comma
/// before it unless it is the first.
pub proof fn lemma_ser_entries_push(es: Seq<EntryModel>, e: EntryModel)
    ensures
        ser_entries_chars(es.push(e)) == if es.len() == 0 {
            ser_entry_chars(e)
        } else {
            ser_entries_chars(es) + (seq![','] + ser_entry_chars(e))
        },
{
    if es.len() == 0 {
        assert(es.push(e)[0] == e);
        assert(es.push(e).drop_first() =~= Seq::<EntryModel>::empty());
        assert(ser_entries_chars(es.push(e)) =~= ser_entry_chars(e));
    } else {
        assert(es.push(e)[0] == es[0]);
        assert(es.push(e).drop_first() =~= es.drop_first().push(e));
        lemma_ser_more_push(es.drop_first(), e);
        assert(ser_entries_chars(es.push(e)) =~= ser_entries_chars(es) + (seq![',']
            + ser_entry_chars(e)));
    }
}

// ---------------------------------------------------------------------------
// The serializer
// ---------------------------------------------------------------------------

/// Appends the escaped form of `s`.
fn append_escaped(out: &mut String, s: &str)
    ensures
        final (out)@ == old(out)@ + esc(s@),
{
    let ghost base = out@;
    let n = s.unicode_len();
    let mut i: usize = 0;
    while i < n
        invariant
            i <= n,
            n == s@.len(),
            out@ == base + esc(s@.take(i as int)),
        decreases n - i,
    {
        let c = s.get_char(i);
        proof {
            assert(s@.take(i + 1) =~= s@.take(i as int).push(s@[i as int]));
            lemma_esc_push(s@.take(i as int), s@[i as int]);
        }
        if c == '"' {
            out.append("\\\"");
            proof {
                assert("\\\""@ =~= esc_char(s@[i as int])) by {
                    reveal_strlit("\\\"");
                }
            }
        } else if c == '\\' {
            out.append("\\\\");
            proof {
                assert("\\\\"@ =~= esc_char(s@[i as int])) by {
                    reveal_strlit("\\\\");
                }
            }
        } else {
            let piece = s.substring_char(i, i + 1);
            out.append(piece);
            proof {
                assert(piece@ =~= esc_char(s@[i as int]));
            }
        }
        i = i + 1;
        proof {
            assert(out@ =~= base + esc(s@.take(i as int)));
        }
    }
    proof {
        assert(s@.take(n as int) =~= s@);
    }
}

/// Appends the canonical text of one entry.
fn serialize_entry_into(out: &mut String, e: &PasswordEntry)
    ensures
        final (out)@ == old(out)@ + ser_entry_chars(e@),
{
    out.append("{\"id\":");
    let num = u32_to_string(e.id);
    out.append(num.as_str());
    out.append(",\"label\":\"");
    append_escaped(out, e.label.as_str());
    out.append("\"");
    out.append(",\"username\":\"");
    append_escaped(out, e.username.as_str());
    out.append("\"");
    out.append(",\"secret\":\"");
    append_escaped(out, e.secret.as_str());
    out.append("\"");
    out.append(",\"metadata\":\"");
    append_escaped(out, e.metadata.as_str());
    out.append("\"");
    out.append("}");
    proof {
        assert("\""@ =~= seq!['"']) by {
            reveal_strlit("\"");
        }
        assert(out@ =~= old(out)@ + ser_entry_chars(e@));
    }
}

/// The canonical text of the whole collection.
pub fn serialize_store(store: &PasswordStore) -> (r: String)
    ensures
        r@ == ser_store_chars(store@),
{
    let mut out = String::from_str("{\"entries\":[");
    let n = store.entries.len();
    let mut i: usize = 0;
    while i < n
        invariant
            i <= n,
            n == store.entries@.len(),
            n == store@.len(),
            out@ == "{\"entries\":["@ + ser_entries_chars(store@.take(i as int)),
        decreases n - i,
    {
        let ghost prefix = store@.take(i as int);
        if i > 0 {
            out.append(",");
            proof {
                assert(","@ =~= seq![',']) by {
                    reveal_strlit(",");
                }
            }
        }
        serialize_entry_into(&mut out, &store.entries[i]);
        proof {
            assert(store@.take(i + 1) =~= prefix.push(store@[i as int]));
            lemma_ser_entries_push(prefix, store@[i as int]);
            assert(store@[i as int] == store.entries@[i as int]@);
            assert(out@ =~= "{\"entries\":["@ + ser_entries_chars(store@.take(i + 1)));
        }
        i = i + 1;
    }
    out.append("]}");
    proof {
        assert(store@.take(n as int) =~= store@);
        assert(out@ =~= ser_store_chars(store@));
    }
    out
}

// ---------------------------------------------------------------------------
// The parser
// ---------------------------------------------------------------------------

/// Consumes the literal `lit` at position `i`.
fn expect_lit(v: &Vec<char>, i: usize, lit: &str) -> (r: Option<usize>)
    requires
        i <= v@.len(),
    ensures
        match r {
            Some(j) => {
                &&& i <= j <= v@.len()
                &&& j - i == lit@.len()
                &&& expect(v@.skip(i as int), lit@) == Some(v@.skip(j as int))
            },
            None => expect(v@.skip(i as int), lit@) is None,
        },
{
    let n = lit.unicode_len();
    let vn = v.len();
    if vn - i < n {
        proof {
            assert(v@.skip(i as int).len() < lit@.len());
        }
        return None;
    }
    let mut k: usize = 0;
    while k < n
        invariant
            k <= n,
            n == lit@.len(),
            vn == v@.len(),
            i <= vn,
            i + n <= vn,
            forall|m: int| 0 <= m < k ==> v@[i + m] == lit@[m],
        decreases n - k,
    {
        if v[i + k] != lit.get_char(k) {
            proof {
                let s = v@.skip(i as int);
                assert(s.take(n as int)[k as int] == v@[i + k]);
                assert(s.take(n as int) != lit@);
            }
            return None;
        }
        k = k + 1;
    }
    proof {
        let s = v@.skip(i as int);
        assert(s.take(n as int) =~= lit@);
        assert(s.skip(n as int) =~= v@.skip(i + n));
    }
    Some(i + n)
}

/// Reads a quoted string body starting at `i`, up to and over the closing
/// quote, returning the unescaped content.
fn scan_string_at(src: &str, v: &Vec<char>, i: usize) -> (r: Option<(String, usize)>)
    requires
        v@ == src@,
        i <= v@.len(),
    ensures
        match r {
            Some(p) => {
                &&& i < p.1 <= v@.len()
                &&& scan_str(v@.skip(i as int)) == Some((p.0@, v@.skip(p.1 as int)))
            },
            None => scan_str(v@.skip(i as int)) is None,
        },
{
    let mut out = String::new();
    let mut j = i;
    loop
        invariant
            i <= j <= v@.len(),
            v@ == src@,
            match scan_str(v@.skip(j as int)) {
                Some(tr) => scan_str(v@.skip(i as int)) == Some((out@ + tr.0, tr.1)),
                None => scan_str(v@.skip(i as int)) is None,
            },
        decreases v@.len() - j,
    {
        if j == v.len() {
            return None;
        }
        let c = v[j];
        proof {
            assert(v@.skip(j as int)[0] == v@[j as int]);
        }
        if c == '"' {
            proof {
                assert(v@.skip(j as int).drop_first() =~= v@.skip(j + 1));
                assert(out@ + Seq::<char>::empty() =~= out@);
            }
            return Some((out, j + 1));
        } else if c == '\\' {
            if j + 1 < v.len() {
                let c2 = v[j + 1];
                if c2 == '"' || c2 == '\\' {
                    proof {
                        assert(v@.skip(j as int)[1] == v@[j + 1]);
                        assert(v@.skip(j as int).skip(2) =~= v@.skip(j + 2));
                    }
                    let ghost before = out@;
                    let piece = src.substring_char(j + 1, j + 2);
                    out.append(piece);
                    proof {
                        assert(piece@ =~= seq![v@[j + 1]]);
                        if scan_str(v@.skip(j + 2)) is Some {
                            let tr = scan_str(v@.skip(j + 2)).unwrap();
                            assert(before + (seq![v@[j + 1]] + tr.0) =~= out@ + tr.0);
                        }
                    }
                    j = j + 2;
                } else {
                    return None;
                }
            } else {
                proof {
                    assert(v@.skip(j as int).len() == 1);
                }
                return None;
            }
        } else {
            let ghost before = out@;
            let piece = src.substring_char(j, j + 1);
            out.append(piece);
            proof {
                assert(v@.skip(j as int).drop_first() =~= v@.skip(j + 1));
                assert(piece@ =~= seq![v@[j as int]]);
                if scan_str(v@.skip(j + 1)) is Some {
                    let tr = scan_str(v@.skip(j + 1)).unwrap();
                    assert(before + (seq![v@[j as int]] + tr.0) =~= out@ + tr.0);
                }
            }
            j = j + 1;
        }
    }
}

/// Whether the character at `j` is a decimal digit.
fn digit_at(v: &Vec<char>, j: usize) -> (r: bool)
    requires
        j < v@.len(),
    ensures
        r == is_digit_char(v@[j as int]),
{
    let u = v[j] as u32;
    48 <= u && u <= 57
}

/// Reads a decimal `u32` starting at `i`.
fn parse_u32_at(v: &Vec<char>, i: usize) -> (r: Option<(u32, usize)>)
    requires
        i <= v@.len(),
    ensures
        match r {
            Some(p) => {
                &&& i < p.1 <= v@.len()
                &&& parse_u32(v@.skip(i as int)) == Some((p.0, v@.skip(p.1 as int)))
            },
            None => parse_u32(v@.skip(i as int)) is None,
        },
{
    let mut j = i;
    let mut val: u64 = 0;
    while j < v.len() && digit_at(v, j)
        invariant
            i <= j <= v@.len(),
            forall|m: int| i <= m < j ==> is_digit_char(#[trigger] v@[m]),
            scan_digits(v@.skip(i as int)).0 == v@.subrange(i as int, j as int) + scan_digits(
                v@.skip(j as int),
            ).0,
            scan_digits(v@.skip(i as int)).1 == scan_digits(v@.skip(j as int)).1,
            (digits_value(v@.subrange(i as int, j as int)) <= 0xFFFF_FFFF && val == digits_value(
                v@.subrange(i as int, j as int),
            )) || (digits_value(v@.subrange(i as int, j as int)) > 0xFFFF_FFFF && val
                == 0x1_0000_0000),
            val <= 0x1_0000_0000,
        decreases v@.len() - j,
    {
        let ghost seen = v@.subrange(i as int, j as int);
        let u = v[j] as u32;
        let d = (u - 48) as u64;
        let t = val * 10 + d;
        val = if t > 0xFFFF_FFFF {
            0x1_0000_0000
        } else {
            t
        };
        proof {
            assert(v@.skip(j as int)[0] == v@[j as int]);
            assert(v@.skip(j as int).drop_first() =~= v@.skip(j + 1));
            assert(v@.subrange(i as int, j + 1) =~= seen.push(v@[j as int]));
            assert(v@.subrange(i as int, j + 1).drop_last() =~= seen);
            assert(digits_value(v@.subrange(i as int, j + 1)) == digits_value(seen) * 10
                + digit_val(v@[j as int]));
            assert(seen + (seq![v@[j as int]] + scan_digits(v@.skip(j + 1)).0) =~= v@.subrange(
                i as int,
                j + 1,
            ) + scan_digits(v@.skip(j + 1)).0);
        }
        j = j + 1;
    }
    proof {
        if j < v@.len() {
            assert(!is_digit_char(v@[j as int]));
            assert(v@.skip(j as int)[0] == v@[j as int]);
        } else {
            assert(v@.skip(j as int).len() == 0);
        }
        assert(scan_digits(v@.skip(j as int)).0 =~= Seq::<char>::empty());
        assert(scan_digits(v@.skip(j as int)).1 =~= v@.skip(j as int));
        assert(v@.subrange(i as int, j as int) + Seq::<char>::empty() =~= v@.subrange(
            i as int,
            j as int,
        ));
    }
    if j == i {
        proof {
            assert(v@.subrange(i as int, i as int).len() == 0);
        }
        return None;
    }
    if val > 0xFFFF_FFFF {
        return None;
    }
    Some((val as u32, j))
}

/// Reads one entry object starting at `i`.
fn parse_entry_at(src: &str, v: &Vec<char>, i: usize) -> (r: Option<(PasswordEntry, usize)>)
    requires
        v@ == src@,
        i <= v@.len(),
    ensures
        match r {
            Some(p) => {
                &&& i < p.1 <= v@.len()
                &&& parse_entry(v@.skip(i as int)) == Some((p.0@, v@.skip(p.1 as int)))
            },
            None => parse_entry(v@.skip(i as int)) is None,
        },
{
    let j1 = match expect_lit(v, i, "{\"id\":") {
        Some(j) => j,
        None => {
            return None;
        },
    };
    let (id, j2) = match parse_u32_at(v, j1) {
        Some(p) => p,
        None => {
            return None;
        },
    };
    let j3 = match expect_lit(v, j2, ",\"label\":\"") {
        Some(j) => j,
        None => {
            return None;
        },
    };
    let (label, j4) = match scan_string_at(src, v, j3) {
        Some(p) => p,
        None => {
            return None;
        },
    };
    let j5 = match expect_lit(v, j4, ",\"username\":\"") {
        Some(j) => j,
        None => {
            return None;
        },
    };
    let (username, j6) = match scan_string_at(src, v, j5) {
        Some(p) => p,
        None => {
            return None;
        },
    };
    let j7 = match expect_lit(v, j6, ",\"secret\":\"") {
        Some(j) => j,
        None => {
            return None;
        },
    };
    let (secret, j8) = match scan_string_at(src, v, j7) {
        Some(p) => p,
        None => {
            return None;
        },
    };
    let j9 = match expect_lit(v, j8, ",\"metadata\":\"") {
        Some(j) => j,
        None => {
            return None;
        },
    };
    let (metadata, j10) = match scan_string_at(src, v, j9) {
        Some(p) => p,
        None => {
            return None;
        },
    };
    let j11 = match expect_lit(v, j10, "}") {
        Some(j) => j,
        None => {
            return None;
        },
    };
    let entry = PasswordEntry { id, label, username, secret, metadata };
    Some((entry, j11))
}

/// Reads the comma-preceded entries starting at `i`.
fn parse_more_at(src: &str, v: &Vec<char>, i: usize) -> (r: Option<(Vec<PasswordEntry>, usize)>)
    requires
        v@ == src@,
        i <= v@.len(),
    ensures
        match r {
            Some(p) => {
                &&& i <= p.1 <= v@.len()
                &&& parse_more_entries(v@.skip(i as int)) == Some(
                    (p.0@.map_values(|pe: PasswordEntry| pe@), v@.skip(p.1 as int)),
                )
            },
            None => parse_more_entries(v@.skip(i as int)) is None,
        },
    decreases v@.len() - i,
{
    if i < v.len() && v[i] == ',' {
        proof {
            assert(v@.skip(i as int)[0] == v@[i as int]);
            assert(v@.skip(i as int).drop_first() =~= v@.skip(i + 1));
        }
        match parse_entry_at(src, v, i + 1) {
            None => None,
            Some((e, j)) => {
                match parse_more_at(src, v, j) {
                    None => None,
                    Some((mut es, jj)) => {
                        let ghost tail = es@.map_values(|pe: PasswordEntry| pe@);
                        es.insert(0, e);
                        proof {
                            assert(es@.map_values(|pe: PasswordEntry| pe@) =~= seq![e@] + tail);
                        }
                        Some((es, jj))
                    },
                }
            },
        }
    } else {
        let r: Vec<PasswordEntry> = Vec::new();
        proof {
            assert(r@.map_values(|pe: PasswordEntry| pe@) =~= Seq::<EntryModel>::empty());
        }
        Some((r, i))
    }
}

/// Reads a whole store text; anything else than one canonical store object
/// is rejected.
pub fn parse_store(src: &str) -> (r: Option<PasswordStore>)
    ensures
        match r {
            Some(ps) => parse_store_chars(src@) == Some(ps@),
            None => parse_store_chars(src@) is None,
        },
{
    let v = str_to_chars(src);
    proof {
        assert(v@.skip(0) =~= v@);
    }
    let j0 = match expect_lit(&v, 0, "{\"entries\":[") {
        Some(j) => j,
        None => {
            return None;
        },
    };
    let close_here = v.len() - j0 == 2 && v[j0] == ']';
    let close_both = close_here && v[j0 + 1] == '}';
    proof {
        reveal_strlit("]}");
        let s1 = v@.skip(j0 as int);
        assert(s1.len() == v@.len() - j0);
        if close_both {
            assert(s1 =~= "]}"@);
        } else {
            if s1.len() == 2 {
                assert(s1[0] == v@[j0 as int]);
                assert(s1[1] == v@[j0 + 1]);
            }
            assert(s1 != "]}"@);
        }
    }
    if close_both {
        let ps = PasswordStore { entries: Vec::new() };
        proof {
            assert(ps@ =~= Seq::<EntryModel>::empty());
        }
        return Some(ps);
    }
    let (e, j1) = match parse_entry_at(src, &v, j0) {
        Some(p) => p,
        None => {
            return None;
        },
    };
    let (mut es, j2) = match parse_more_at(src, &v, j1) {
        Some(p) => p,
        None => {
            return None;
        },
    };
    let end_here = v.len() - j2 == 2 && v[j2] == ']';
    let end_both = end_here && v[j2 + 1] == '}';
    proof {
        reveal_strlit("]}");
        let rr = v@.skip(j2 as int);
        assert(rr.len() == v@.len() - j2);
        if end_both {
            assert(rr =~= "]}"@);
        } else {
            if rr.len() == 2 {
                assert(rr[0] == v@[j2 as int]);
                assert(rr[1] == v@[j2 + 1]);
            }
            assert(rr != "]}"@);
        }
    }
    if end_both {
        let ghost tail = es@.map_values(|pe: PasswordEntry| pe@);
        es.insert(0, e);
        let ps = PasswordStore { entries: es };
        proof {
            assert(ps@ =~= seq![e@] + tail);
        }
        return Some(ps);
    }
    None
}

} // verus!

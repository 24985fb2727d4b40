//! The store codec: the ledger's on-disk table format, rendered and parsed
//! back in verified code.  The format is one header line, then one line per
//! record: the identifier text, the recipient quoted with doubled inner
//! quotes, the decimal amount, and the canonical timestamp text, separated
//! by commas and ended by a newline.

use vstd::prelude::*;

use crate::digits::dec_text;
use crate::digits::is_digit;
use crate::digits::parse_i32;
use crate::digits::push_i64_text;
use crate::ident::{uuid_parse, uuid_text, uuid_text_char, uuid_text_of};
use crate::ledger::ledger_wf;
use crate::ledger::Ledger;
use crate::ledger::LEDGER_CAP;
use crate::record::{record_wf, Record, RecordV};
use crate::text::{chars_string, extend_chars, str_chars, sub_chars};
use crate::timefmt::{time_in_range, time_parse, time_text, time_text_char, time_text_of, MAX_TIMESTAMP};

verus! {

/// The header line of the store format.
pub open spec fn header_text() -> Seq<char> {
    "transaction_id,recipient,transaction_amount,transaction_time\n"@
}

/// A field body with each double quote doubled.
pub open spec fn esc(s: Seq<char>) -> Seq<char>
    decreases s.len(),
{
    if s.len() == 0 {
        Seq::empty()
    } else {
        esc(s.drop_last()) + (if s.last() == '"' {
            seq!['"', '"']
        } else {
            seq![s.last()]
        })
    }
}

/// The stored row of one record.
pub open spec fn row_text(r: RecordV) -> Seq<char> {
    uuid_text_of(r.id) + seq![','] + seq!['"'] + esc(r.recipient) + seq!['"'] + seq![',']
        + dec_text(r.amount as int) + seq![','] + time_text_of(r.time) + seq!['\n']
}

/// The stored rows of a whole ledger, in order.
pub open spec fn rows_text(l: Seq<RecordV>) -> Seq<char>
    decreases l.len(),
{
    if l.len() == 0 {
        Seq::empty()
    } else {
        rows_text(l.drop_last()) + row_text(l.last())
    }
}

/// The whole stored file of a ledger.
pub open spec fn ledger_text(l: Seq<RecordV>) -> Seq<char> {
    header_text() + rows_text(l)
}

/// A field text that never collides with the format's structure: no comma,
/// no quote, no newline.
pub open spec fn benign_field(f: Seq<char>) -> bool {
    forall|i: int|
        #![trigger f[i]]
        0 <= i < f.len() ==> f[i] != ',' && f[i] != '"' && f[i] != '\n'
}

/// What the parser needs to know of a record's trusted field texts to read
/// its row back: the identifier and timestamp texts are benign, and the
/// timestamp is in the storable range.  Rendering establishes this for every
/// record it writes.
pub open spec fn encodable(r: RecordV) -> bool {
    &&& benign_field(uuid_text_of(r.id))
    &&& benign_field(time_text_of(r.time))
    &&& time_in_range(r.time)
}

proof fn lemma_dec_text_benign(n: int)
    ensures
        benign_field(dec_text(n)),
{
    crate::digits::lemma_dec_text_chars(n);
    assert forall|i: int|
        #![trigger dec_text(n)[i]]
        0 <= i < dec_text(n).len() implies dec_text(n)[i] != ',' && dec_text(n)[i] != '"'
        && dec_text(n)[i] != '\n' by {
        assert(dec_text(n)[i] == '-' || is_digit(dec_text(n)[i]));
    }
}

proof fn lemma_esc_front(s: Seq<char>)
    requires
        s.len() > 0,
    ensures
        esc(s) == (if s[0] == '"' {
            seq!['"', '"']
        } else {
            seq![s[0]]
        }) + esc(s.drop_first()),
    decreases s.len(),
{
    let b0 = if s[0] == '"' {
        seq!['"', '"']
    } else {
        seq![s[0]]
    };
    if s.len() == 1 {
        assert(s.drop_last() =~= Seq::<char>::empty());
        assert(s.drop_first() =~= Seq::<char>::empty());
        assert(s.last() == s[0]);
        assert(esc(s) =~= b0 + esc(s.drop_first()));
    } else {
        let bl = if s.last() == '"' {
            seq!['"', '"']
        } else {
            seq![s.last()]
        };
        lemma_esc_front(s.drop_last());
        assert(s.drop_last()[0] == s[0]);
        assert(s.drop_last().drop_first() =~= s.drop_first().drop_last());
        assert(s.drop_first().last() == s.last());
        assert(esc(s) == (b0 + esc(s.drop_first().drop_last())) + bl);
        assert((b0 + esc(s.drop_first().drop_last())) + bl =~= b0 + (esc(
            s.drop_first().drop_last(),
        ) + bl));
        assert(esc(s.drop_first()) == esc(s.drop_first().drop_last()) + bl);
    }
}

/// Scans a quoted field body from the front: the field's characters, and how
/// many input characters the field took, closing quote included.  `None`
/// when the input ends before the field closes.
pub open spec fn unquote_scan(s: Seq<char>) -> Option<(Seq<char>, int)>
    decreases s.len(),
{
    if s.len() == 0 {
        None
    } else if s[0] == '"' {
        if s.len() >= 2 && s[1] == '"' {
            match unquote_scan(s.skip(2)) {
                Some(p) => Some((seq!['"'] + p.0, p.1 + 2)),
                None => None,
            }
        } else {
            Some((Seq::empty(), 1))
        }
    } else {
        match unquote_scan(s.drop_first()) {
            Some(p) => Some((seq![s[0]] + p.0, p.1 + 1)),
            None => None,
        }
    }
}

proof fn lemma_unquote_of_escaped(name: Seq<char>, tail: Seq<char>)
    requires
        tail.len() == 0 || tail[0] != '"',
    ensures
        unquote_scan(esc(name) + seq!['"'] + tail) == Some((name, esc(name).len() + 1int)),
    decreases name.len(),
{
    let s = esc(name) + seq!['"'] + tail;
    if name.len() == 0 {
        assert(esc(name) =~= Seq::<char>::empty());
        assert(s =~= seq!['"'] + tail);
        assert(s[0] == '"');
        if s.len() >= 2 {
            assert(s[1] == tail[0]);
        }
        assert(unquote_scan(s) == Some((Seq::<char>::empty(), 1int)));
        assert(name =~= Seq::<char>::empty());
    } else {
        let ndf = name.drop_first();
        lemma_esc_front(name);
        lemma_unquote_of_escaped(ndf, tail);
        if name[0] == '"' {
            assert(esc(name) == seq!['"', '"'] + esc(ndf));
            assert(s[0] == '"');
            assert(s[1] == '"');
            assert(s.len() >= 2);
            assert(s.skip(2) =~= esc(ndf) + seq!['"'] + tail);
            assert(unquote_scan(s) == Some((seq!['"'] + ndf, esc(ndf).len() + 1int + 2)));
            assert(seq!['"'] + ndf =~= name);
            assert(esc(name).len() == 2 + esc(ndf).len());
        } else {
            assert(esc(name) == seq![name[0]] + esc(ndf));
            assert(s[0] == name[0]);
            assert(s.drop_first() =~= esc(ndf) + seq!['"'] + tail);
            assert(unquote_scan(s) == Some((seq![name[0]] + ndf, esc(ndf).len() + 1int + 1)));
            assert(seq![name[0]] + ndf =~= name);
            assert(esc(name).len() == 1 + esc(ndf).len());
        }
    }
}

/// The index of the first occurrence of `target` at or after `start`.
fn scan_until(s: &Vec<char>, start: usize, target: char) -> (r: Option<usize>)
    requires
        start <= s@.len(),
    ensures
        match r {
            Some(j) => start <= j < s@.len() && s@[j as int] == target && forall|m: int|
                start <= m < j ==> s@[m] != target,
            None => forall|m: int| start <= m < s@.len() ==> s@[m] != target,
        },
{
    let mut i: usize = start;
    while i < s.len()
        invariant
            start <= i <= s@.len(),
            forall|m: int| start <= m < i ==> s@[m] != target,
        decreases s@.len() - i,
    {
        if s[i] == target {
            return Some(i);
        }
        i = i + 1;
    }
    None
}

/// Reads a quoted field body starting at `start` (just past the opening
/// quote): the field's characters and the index just past the closing
/// quote.
fn scan_quoted(s: &Vec<char>, start: usize) -> (r: Option<(Vec<char>, usize)>)
    requires
        start <= s@.len(),
    ensures
        match r {
            Some(p) => {
                &&& start < p.1 <= s@.len()
                &&& unquote_scan(s@.skip(start as int)) == Some((p.0@, p.1 - start as int))
            },
            None => unquote_scan(s@.skip(start as int)) is None,
        },
{
    let mut collected: Vec<char> = Vec::new();
    let mut i: usize = start;
    while i < s.len()
        invariant
            start <= i <= s@.len(),
            unquote_scan(s@.skip(i as int)) is Some ==> unquote_scan(s@.skip(start as int))
                == Some(
                (
                    collected@ + (unquote_scan(s@.skip(i as int))->0).0,
                    (i - start) + (unquote_scan(s@.skip(i as int))->0).1,
                ),
            ),
            unquote_scan(s@.skip(i as int)) is None ==> unquote_scan(s@.skip(start as int))
                is None,
        decreases s@.len() - i,
    {
        let ghost rem = s@.skip(i as int);
        proof {
            assert(rem.len() == s@.len() - i);
            assert(rem[0] == s@[i as int]);
        }
        let c = s[i];
        if c == '"' {
            if i + 1 < s.len() && s[i + 1] == '"' {
                proof {
                    assert(rem.len() >= 2);
                    assert(rem[1] == s@[i + 1]);
                    assert(rem.skip(2) =~= s@.skip(i + 2));
                    if unquote_scan(s@.skip(i + 2)) is Some {
                        let p = unquote_scan(s@.skip(i + 2))->0;
                        assert(unquote_scan(rem) == Some((seq!['"'] + p.0, p.1 + 2)));
                        assert(collected@ + (seq!['"'] + p.0) =~= collected@.push('"') + p.0);
                    }
                }
                collected.push('"');
                i = i + 2;
            } else {
                proof {
                    if rem.len() >= 2 {
                        assert(rem[1] == s@[i + 1]);
                    }
                    assert(unquote_scan(rem) == Some((Seq::<char>::empty(), 1int)));
                    assert(collected@ + Seq::<char>::empty() =~= collected@);
                }
                return Some((collected, i + 1));
            }
        } else {
            proof {
                assert(rem.drop_first() =~= s@.skip(i + 1));
                if unquote_scan(s@.skip(i + 1)) is Some {
                    let p = unquote_scan(s@.skip(i + 1))->0;
                    assert(unquote_scan(rem) == Some((seq![rem[0]] + p.0, p.1 + 1)));
                    assert(collected@ + (seq![rem[0]] + p.0) =~= collected@.push(rem[0]) + p.0);
                }
            }
            collected.push(c);
            i = i + 1;
        }
    }
    proof {
        assert(s@.skip(i as int).len() == 0);
    }
    None
}

/// A full row of `rec` stands in `s` at position `start`.
pub open spec fn row_at(s: Seq<char>, start: int, rec: RecordV) -> bool {
    &&& 0 <= start
    &&& start + row_text(rec).len() <= s.len()
    &&& s.subrange(start, start + row_text(rec).len()) == row_text(rec)
}

#[verifier::rlimit(100)]
proof fn lemma_row_layout(s: Seq<char>, start: int, rec: RecordV)
    requires
        encodable(rec),
        row_at(s, start, rec),
    ensures
        ({
            let u = uuid_text_of(rec.id);
            let e = esc(rec.recipient);
            let a = dec_text(rec.amount as int);
            let t = time_text_of(rec.time);
            let c1 = start + u.len();
            let q1 = c1 + 1;
            let c2 = q1 + 1 + e.len() + 1;
            let c3 = c2 + 1 + a.len();
            let nl = c3 + 1 + t.len();
            &&& row_text(rec).len() == u.len() + e.len() + a.len() + t.len() + 6
            &&& nl < s.len()
            &&& s.subrange(start, c1) == u
            &&& s[c1] == ','
            &&& s[q1] == '"'
            &&& unquote_scan(s.skip(q1 + 1)) == Some((rec.recipient, e.len() + 1int))
            &&& s[c2] == ','
            &&& s.subrange(c2 + 1, c3) == a
            &&& s[c3] == ','
            &&& s.subrange(c3 + 1, nl) == t
            &&& s[nl] == '\n'
            &&& (forall|m: int| start <= m < c1 ==> s[m] != ',')
            &&& (forall|m: int| c2 + 1 <= m < c3 ==> s[m] != ',')
            &&& (forall|m: int| c3 + 1 <= m < nl ==> s[m] != '\n')
        }),
{
    let u = uuid_text_of(rec.id);
    let e = esc(rec.recipient);
    let a = dec_text(rec.amount as int);
    let t = time_text_of(rec.time);
    let c1 = start + u.len();
    let q1 = c1 + 1;
    let c2 = q1 + 1 + e.len() + 1;
    let c3 = c2 + 1 + a.len();
    let nl = c3 + 1 + t.len();
    let row = row_text(rec);
    let len = row.len() as int;
    lemma_dec_text_benign(rec.amount as int);
    let r1 = u + seq![','];
    let r2 = r1 + seq!['"'];
    let r3 = r2 + e;
    let r4 = r3 + seq!['"'];
    let r5 = r4 + seq![','];
    let r6 = r5 + a;
    let r7 = r6 + seq![','];
    let r8 = r7 + t;
    assert(row == r8 + seq!['\n']);
    assert(seq![','].len() == 1 && seq!['"'].len() == 1 && seq!['\n'].len() == 1);
    assert(r8.len() == u.len() + e.len() + a.len() + t.len() + 5);
    assert(len == u.len() + e.len() + a.len() + t.len() + 6);
    assert forall|m: int| #![trigger s[m]] start <= m < start + len implies s[m] == row[m
        - start] by {
        assert(s.subrange(start, start + len)[m - start] == row[m - start]);
    }
    assert(s.subrange(start, start + r8.len()) =~= r8);
    assert(s[nl] == '\n');
    assert(s.subrange(start, start + r7.len()) =~= r7);
    assert(s.subrange(c3 + 1, nl) =~= t);
    assert(s[c3] == ',');
    assert(s.subrange(start, start + r5.len()) =~= r5);
    assert(s.subrange(c2 + 1, c3) =~= a);
    assert(s[c2] == ',');
    assert(s.subrange(start, start + r3.len()) =~= r3);
    assert(s[q1 + 1 + e.len()] == '"');
    assert(s.subrange(q1 + 1, q1 + 1 + e.len()) =~= e);
    assert(s[q1] == '"');
    assert(s.subrange(start, c1) =~= u);
    assert(s[c1] == ',');
    assert forall|m: int| start <= m < c1 implies s[m] != ',' by {
        assert(s[m] == u[m - start]);
    }
    assert forall|m: int| c2 + 1 <= m < c3 implies s[m] != ',' by {
        assert(s[m] == a[m - (c2 + 1)]);
    }
    assert forall|m: int| c3 + 1 <= m < nl implies s[m] != '\n' by {
        assert(s[m] == t[m - (c3 + 1)]);
    }
    let tail = s.skip(c2);
    assert(tail[0] == ',');
    assert(s.skip(q1 + 1) =~= e + seq!['"'] + tail);
    lemma_unquote_of_escaped(rec.recipient, tail);
}

/// Appends `esc(s)` to `out`.
fn push_escaped(out: &mut Vec<char>, s: &Vec<char>)
    ensures
        final(out)@ == old(out)@ + esc(s@),
{
    let mut i: usize = 0;
    while i < s.len()
        invariant
            i <= s@.len(),
            out@ == old(out)@ + esc(s@.take(i as int)),
        decreases s@.len() - i,
    {
        let c = s[i];
        proof {
            assert(s@.take(i + 1).drop_last() =~= s@.take(i as int));
            assert(s@.take(i + 1).last() == s@[i as int]);
        }
        if c == '"' {
            out.push('"');
            out.push('"');
            proof {
                assert(out@ =~= old(out)@ + esc(s@.take(i + 1)));
            }
        } else {
            out.push(c);
            proof {
                assert(out@ =~= old(out)@ + esc(s@.take(i + 1)));
            }
        }
        i = i + 1;
    }
    proof {
        assert(s@.take(s@.len() as int) =~= s@);
    }
}

/// Reads one row starting at `start`: the record and the index just past
/// the row's newline.  Wherever a row of an encodable record stands at
/// `start`, exactly that record comes back and exactly the row is consumed;
/// on any other input the row is reported unreadable.
#[verifier::rlimit(100)]
fn parse_row(s: &Vec<char>, start: usize) -> (r: Option<(Record, usize)>)
    requires
        start < s@.len(),
    ensures
        r is Some ==> start < (r->0).1 <= s@.len() && record_wf((r->0).0@),
        forall|rec: RecordV|
            encodable(rec) && row_at(s@, start as int, rec) ==> (r is Some && (r->0).0@ == rec
                && (r->0).1 == start + row_text(rec).len()),
{
    let slen = s.len();
    let j1 = match scan_until(s, start, ',') {
        Some(j) => j,
        None => {
            proof {
                assert forall|rec: RecordV|
                    encodable(rec) && row_at(s@, start as int, rec) implies false by {
                    lemma_row_layout(s@, start as int, rec);
                }
            }
            return None;
        },
    };
    let id_field = sub_chars(s, start, j1);
    let id_string = chars_string(&id_field);
    let id = match uuid_parse(id_string.as_str()) {
        Some(v) => v,
        None => {
            proof {
                assert forall|rec: RecordV|
                    encodable(rec) && row_at(s@, start as int, rec) implies false by {
                    lemma_row_layout(s@, start as int, rec);
                    assert(j1 == start + uuid_text_of(rec.id).len());
                    assert(id_string@ == uuid_text_of(rec.id));
                }
            }
            return None;
        },
    };
    let (name_field, j2): (Vec<char>, usize) = if j1 + 1 < slen && s[j1 + 1] == '"' {
        match scan_quoted(s, j1 + 2) {
            Some(p) => p,
            None => {
                proof {
                    assert forall|rec: RecordV|
                        encodable(rec) && row_at(s@, start as int, rec) implies false by {
                        lemma_row_layout(s@, start as int, rec);
                        assert(j1 == start + uuid_text_of(rec.id).len());
                    }
                }
                return None;
            },
        }
    } else {
        // A recipient a minimal writer left unquoted: it runs to the next
        // comma, with no escapes.  A rendered row never takes this path.
        proof {
            assert forall|rec: RecordV|
                encodable(rec) && row_at(s@, start as int, rec) implies false by {
                lemma_row_layout(s@, start as int, rec);
                assert(j1 == start + uuid_text_of(rec.id).len());
            }
        }
        match scan_until(s, j1 + 1, ',') {
            Some(j) => (sub_chars(s, j1 + 1, j), j),
            None => {
                return None;
            },
        }
    };
    if !(j2 < slen && s[j2] == ',') {
        proof {
            assert forall|rec: RecordV|
                encodable(rec) && row_at(s@, start as int, rec) implies false by {
                lemma_row_layout(s@, start as int, rec);
                assert(j1 == start + uuid_text_of(rec.id).len());
                assert(j2 == j1 + 2 + esc(rec.recipient).len() + 1);
            }
        }
        return None;
    }
    let j3 = match scan_until(s, j2 + 1, ',') {
        Some(j) => j,
        None => {
            proof {
                assert forall|rec: RecordV|
                    encodable(rec) && row_at(s@, start as int, rec) implies false by {
                    lemma_row_layout(s@, start as int, rec);
                    assert(j1 == start + uuid_text_of(rec.id).len());
                    assert(j2 == j1 + 2 + esc(rec.recipient).len() + 1);
                }
            }
            return None;
        },
    };
    let amt_field = sub_chars(s, j2 + 1, j3);
    let amt = match parse_i32(&amt_field) {
        Some(v) => v,
        None => {
            proof {
                assert forall|rec: RecordV|
                    encodable(rec) && row_at(s@, start as int, rec) implies false by {
                    lemma_row_layout(s@, start as int, rec);
                    assert(j1 == start + uuid_text_of(rec.id).len());
                    assert(j2 == j1 + 2 + esc(rec.recipient).len() + 1);
                    assert(j3 == j2 + 1 + dec_text(rec.amount as int).len());
                    assert(amt_field@ == dec_text(rec.amount as int));
                }
            }
            return None;
        },
    };
    let j4 = match scan_until(s, j3 + 1, '\n') {
        Some(j) => j,
        None => {
            proof {
                assert forall|rec: RecordV|
                    encodable(rec) && row_at(s@, start as int, rec) implies false by {
                    lemma_row_layout(s@, start as int, rec);
                    assert(j1 == start + uuid_text_of(rec.id).len());
                    assert(j2 == j1 + 2 + esc(rec.recipient).len() + 1);
                    assert(j3 == j2 + 1 + dec_text(rec.amount as int).len());
                }
            }
            return None;
        },
    };
    let t_field = sub_chars(s, j3 + 1, j4);
    let t_string = chars_string(&t_field);
    let t = match time_parse(t_string.as_str()) {
        Some(v) => v,
        None => {
            proof {
                assert forall|rec: RecordV|
                    encodable(rec) && row_at(s@, start as int, rec) implies false by {
                    lemma_row_layout(s@, start as int, rec);
                    assert(j1 == start + uuid_text_of(rec.id).len());
                    assert(j2 == j1 + 2 + esc(rec.recipient).len() + 1);
                    assert(j3 == j2 + 1 + dec_text(rec.amount as int).len());
                    assert(j4 == j3 + 1 + time_text_of(rec.time).len());
                    assert(t_string@ == time_text_of(rec.time));
                }
            }
            return None;
        },
    };
    if t < 0 || t > MAX_TIMESTAMP {
        proof {
            assert forall|rec: RecordV|
                encodable(rec) && row_at(s@, start as int, rec) implies false by {
                lemma_row_layout(s@, start as int, rec);
                assert(j1 == start + uuid_text_of(rec.id).len());
                assert(j2 == j1 + 2 + esc(rec.recipient).len() + 1);
                assert(j3 == j2 + 1 + dec_text(rec.amount as int).len());
                assert(j4 == j3 + 1 + time_text_of(rec.time).len());
                assert(t_string@ == time_text_of(rec.time));
                assert(t == rec.time);
            }
        }
        return None;
    }
    let name_string = chars_string(&name_field);
    let rec_out = Record::from_parts(id, name_string.as_str(), amt, t);
    proof {
        assert forall|rec: RecordV|
            encodable(rec) && row_at(s@, start as int, rec) implies rec_out@ == rec && j4 + 1
            == start + row_text(rec).len() by {
            lemma_row_layout(s@, start as int, rec);
            assert(j1 == start + uuid_text_of(rec.id).len());
            assert(id_string@ == uuid_text_of(rec.id));
            assert(id == rec.id);
            assert(j2 == j1 + 2 + esc(rec.recipient).len() + 1);
            assert(name_field@ == rec.recipient);
            assert(j3 == j2 + 1 + dec_text(rec.amount as int).len());
            assert(amt_field@ == dec_text(rec.amount as int));
            assert(amt == rec.amount);
            assert(j4 == j3 + 1 + time_text_of(rec.time).len());
            assert(t_string@ == time_text_of(rec.time));
            assert(t == rec.time);
            assert(rec == (RecordV {
                id: rec.id,
                recipient: rec.recipient,
                amount: rec.amount,
                time: rec.time,
            }));
        }
    }
    Some((rec_out, j4 + 1))
}

proof fn lemma_rows_front(l: Seq<RecordV>)
    requires
        l.len() > 0,
    ensures
        rows_text(l) == row_text(l[0]) + rows_text(l.drop_first()),
    decreases l.len(),
{
    if l.len() == 1 {
        assert(l.drop_last() =~= Seq::<RecordV>::empty());
        assert(l.drop_first() =~= Seq::<RecordV>::empty());
        assert(l.last() == l[0]);
        assert(rows_text(l) =~= row_text(l[0]) + rows_text(l.drop_first()));
    } else {
        lemma_rows_front(l.drop_last());
        assert(l.drop_last()[0] == l[0]);
        assert(l.drop_last().drop_first() =~= l.drop_first().drop_last());
        assert(l.drop_first().last() == l.last());
        assert(rows_text(l) == (row_text(l[0]) + rows_text(l.drop_first().drop_last()))
            + row_text(l.last()));
        assert((row_text(l[0]) + rows_text(l.drop_first().drop_last())) + row_text(l.last())
            =~= row_text(l[0]) + (rows_text(l.drop_first().drop_last()) + row_text(l.last())));
        assert(rows_text(l.drop_first()) == rows_text(l.drop_first().drop_last()) + row_text(
            l.last(),
        ));
    }
}

proof fn lemma_step_valid(input: Seq<char>, l: Seq<RecordV>, built: Seq<RecordV>, pos: int)
    requires
        0 <= pos <= input.len(),
        built.len() <= l.len(),
        built == l.take(built.len() as int),
        input.skip(pos) == rows_text(l.skip(built.len() as int)),
        forall|i: int| 0 <= i < l.len() ==> encodable(#[trigger] l[i]),
    ensures
        built.len() < l.len() ==> ({
            let bl = built.len() as int;
            &&& encodable(l[bl])
            &&& row_at(input, pos, l[bl])
            &&& input.skip(pos + row_text(l[bl]).len()) == rows_text(l.skip(bl + 1))
        }),
        built.len() == l.len() ==> pos == input.len(),
{
    let bl = built.len() as int;
    if bl < l.len() {
        lemma_rows_front(l.skip(bl));
        assert(l.skip(bl)[0] == l[bl]);
        assert(l.skip(bl).drop_first() =~= l.skip(bl + 1));
        let row = row_text(l[bl]);
        let rest = rows_text(l.skip(bl + 1));
        assert(input.skip(pos) == row + rest);
        assert(input.skip(pos).len() == input.len() - pos);
        assert(pos + row.len() <= input.len());
        assert(input.subrange(pos, pos + row.len()) =~= row);
        assert forall|m: int| 0 <= m < rest.len() implies input.skip(pos + row.len())[m]
            == rest[m] by {
            assert((row + rest)[row.len() + m] == rest[m]);
            assert(input.skip(pos)[row.len() + m] == input[pos + row.len() + m]);
        }
        assert(input.skip(pos + row.len()) =~= rest);
    } else {
        assert(l.skip(bl) =~= Seq::<RecordV>::empty());
        assert(input.skip(pos).len() == 0);
    }
}

/// Why a stored ledger text is rejected outright rather than read row by
/// row.
#[derive(Clone, Copy, Debug, PartialEq, Eq, Structural)]
pub enum LoadError {
    /// The text does not begin with the format's header line.
    BadHeader,
}

/// Reads a stored ledger text back: the ledger, and how many unreadable
/// rows were dropped.  The text must open with the header line, or the whole
/// load fails; after it, every readable row contributes its record in order,
/// and every unreadable row is skipped up to its next newline and counted.
///
/// On any text that `render_ledger` produced, the postcondition below says
/// the load returns exactly the rendered records with nothing skipped: the
/// save/load round trip.
pub fn parse_ledger(input: &Vec<char>) -> (r: Result<(Ledger, usize), LoadError>)
    ensures
        r is Err <==> !header_text().is_prefix_of(input@),
        r is Ok ==> ledger_wf((r->Ok_0).0@),
        forall|l: Seq<RecordV>|
            #![trigger ledger_text(l)]
            ledger_wf(l) && (forall|i: int| 0 <= i < l.len() ==> encodable(#[trigger] l[i]))
                && input@ == ledger_text(l) ==> (r is Ok && (r->Ok_0).0@ == l && (r->Ok_0).1
                == 0),
{
    let header = str_chars("transaction_id,recipient,transaction_amount,transaction_time\n");
    let hlen = header.len();
    let ilen = input.len();
    proof {
        assert(header@ == header_text());
    }
    if ilen < hlen {
        proof {
            assert forall|l: Seq<RecordV>|
                #![trigger ledger_text(l)]
                ledger_wf(l) && (forall|i: int| 0 <= i < l.len() ==> encodable(#[trigger] l[i]))
                    && input@ == ledger_text(l) implies false by {
                assert(input@.len() == header_text().len() + rows_text(l).len());
            }
        }
        return Err(LoadError::BadHeader);
    }
    let mut h: usize = 0;
    while h < hlen
        invariant
            hlen == header@.len(),
            hlen <= ilen == input@.len(),
            h <= hlen,
            header@ == header_text(),
            forall|m: int| 0 <= m < h ==> input@[m] == header@[m],
        decreases hlen - h,
    {
        if input[h] != header[h] {
            proof {
                assert forall|l: Seq<RecordV>|
                    #![trigger ledger_text(l)]
                    ledger_wf(l) && (forall|i: int|
                        0 <= i < l.len() ==> encodable(#[trigger] l[i])) && input@
                        == ledger_text(l) implies false by {
                    assert(input@[h as int] == header_text()[h as int]);
                }
            }
            return Err(LoadError::BadHeader);
        }
        h = h + 1;
    }
    let mut ledger = Ledger::new();
    let mut skipped: usize = 0;
    let mut pos: usize = hlen;
    proof {
        assert forall|l: Seq<RecordV>|
            #![trigger ledger_text(l)]
            ledger_wf(l) && (forall|i: int| 0 <= i < l.len() ==> encodable(#[trigger] l[i]))
                && input@ == ledger_text(l) implies ledger@ == l.take(ledger@.len() as int)
            && ledger@.len() <= l.len() && input@.skip(pos as int) == rows_text(
            l.skip(ledger@.len() as int),
        ) by {
            assert(ledger@ =~= l.take(0));
            assert(input@.skip(hlen as int) =~= rows_text(l));
            assert(l.skip(0) =~= l);
        }
    }
    while pos < ilen
        invariant
            ilen == input@.len(),
            pos <= ilen,
            skipped <= pos,
            ledger_wf(ledger@),
            forall|l: Seq<RecordV>|
                #![trigger ledger_text(l)]
                ledger_wf(l) && (forall|i: int| 0 <= i < l.len() ==> encodable(#[trigger] l[i]))
                    && input@ == ledger_text(l) ==> (ledger@ == l.take(ledger@.len() as int)
                    && ledger@.len() <= l.len() && skipped == 0 && input@.skip(pos as int)
                    == rows_text(l.skip(ledger@.len() as int))),
        decreases ilen - pos,
    {
        let ghost built0 = ledger@;
        let ghost pos0 = pos as int;
        match parse_row(input, pos) {
            Some(parsed) => {
                let (rec, new_pos) = parsed;
                let grew = ledger.len() < LEDGER_CAP;
                if grew {
                    ledger.add_record(rec);
                }
                pos = new_pos;
                proof {
                    assert forall|l: Seq<RecordV>|
                        #![trigger ledger_text(l)]
                        ledger_wf(l) && (forall|i: int|
                            0 <= i < l.len() ==> encodable(#[trigger] l[i])) && input@
                            == ledger_text(l) implies (ledger@ == l.take(ledger@.len() as int)
                        && ledger@.len() <= l.len() && skipped == 0 && input@.skip(pos as int)
                        == rows_text(l.skip(ledger@.len() as int))) by {
                        let bl = built0.len() as int;
                        lemma_step_valid(input@, l, built0, pos0);
                        assert(rec@ == l[bl]);
                        assert(new_pos == pos0 + row_text(l[bl]).len());
                        assert(ledger@ =~= l.take(bl + 1));
                        assert(input@.skip(pos as int) =~= rows_text(l.skip(bl + 1)));
                    }
                }
            },
            None => {
                skipped = skipped + 1;
                match scan_until(input, pos, '\n') {
                    Some(j) => {
                        pos = j + 1;
                    },
                    None => {
                        pos = ilen;
                    },
                }
                proof {
                    assert forall|l: Seq<RecordV>|
                        #![trigger ledger_text(l)]
                        ledger_wf(l) && (forall|i: int|
                            0 <= i < l.len() ==> encodable(#[trigger] l[i])) && input@
                            == ledger_text(l) implies (ledger@ == l.take(ledger@.len() as int)
                        && ledger@.len() <= l.len() && skipped == 0 && input@.skip(pos as int)
                        == rows_text(l.skip(ledger@.len() as int))) by {
                        lemma_step_valid(input@, l, built0, pos0);
                    }
                }
            },
        }
    }
    proof {
        assert forall|l: Seq<RecordV>|
            #![trigger ledger_text(l)]
            ledger_wf(l) && (forall|i: int| 0 <= i < l.len() ==> encodable(#[trigger] l[i]))
                && input@ == ledger_text(l) implies (ledger@ == l && skipped == 0) by {
            let bl = ledger@.len() as int;
            if bl < l.len() {
                lemma_rows_front(l.skip(bl));
                assert(seq!['\n'].len() == 1);
                assert(row_text(l.skip(bl)[0]).len() >= 1);
                assert(input@.skip(pos as int).len() == 0);
            } else {
                assert(l.skip(bl) =~= Seq::<RecordV>::empty());
                assert(ledger@ =~= l);
            }
        }
    }
    Ok((ledger, skipped))
}

/// Renders the whole ledger into its stored text.  Besides producing
/// exactly `ledger_text`, it establishes that every written record is
/// `encodable`, which is what lets `parse_ledger` read the text back: the
/// two postconditions together give the save/load round trip.
pub fn render_ledger(ledger: &Ledger) -> (r: Vec<char>)
    requires
        ledger_wf(ledger@),
    ensures
        r@ == ledger_text(ledger@),
        forall|i: int| 0 <= i < ledger@.len() ==> encodable(#[trigger] ledger@[i]),
{
    let mut out = str_chars("transaction_id,recipient,transaction_amount,transaction_time\n");
    proof {
        assert(out@ =~= header_text() + rows_text(ledger@.take(0)));
    }
    let recs = ledger.entries();
    let ghost l = ledger@;
    let mut j: usize = 0;
    while j < recs.len()
        invariant
            l == ledger@,
            ledger_wf(l),
            recs@.map_values(|x: crate::record::Record| x@) == l,
            recs@.len() == l.len(),
            j <= l.len(),
            out@ == header_text() + rows_text(l.take(j as int)),
            forall|m: int| 0 <= m < j ==> encodable(#[trigger] l[m]),
        decreases l.len() - j,
    {
        let rec = &recs[j];
        proof {
            assert(recs@.map_values(|x: crate::record::Record| x@)[j as int] == l[j as int]);
            assert(rec@ == l[j as int]);
        }
        let ghost before = out@;
        let id_text = uuid_text(rec.id());
        let id_chars = str_chars(id_text.as_str());
        extend_chars(&mut out, &id_chars);
        out.push(',');
        out.push('"');
        let name_chars = str_chars(rec.name());
        push_escaped(&mut out, &name_chars);
        out.push('"');
        out.push(',');
        push_i64_text(&mut out, rec.amount() as i64);
        out.push(',');
        let t_text = time_text(rec.time());
        let t_chars = str_chars(t_text.as_str());
        extend_chars(&mut out, &t_chars);
        out.push('\n');
        proof {
            assert(dec_text(rec@.amount as i64 as int) == dec_text(l[j as int].amount as int));
            assert(out@ =~= before + row_text(l[j as int]));
            assert(l.take(j + 1).drop_last() =~= l.take(j as int));
            assert(out@ =~= header_text() + rows_text(l.take(j + 1)));
            assert(encodable(l[j as int])) by {
                assert forall|i: int|
                    #![trigger uuid_text_of(l[j as int].id)[i]]
                    0 <= i < uuid_text_of(l[j as int].id).len() implies uuid_text_of(
                    l[j as int].id,
                )[i] != ',' && uuid_text_of(l[j as int].id)[i] != '"' && uuid_text_of(
                    l[j as int].id,
                )[i] != '\n' by {
                    assert(uuid_text_char(uuid_text_of(l[j as int].id)[i]));
                }
                assert forall|i: int|
                    #![trigger time_text_of(l[j as int].time)[i]]
                    0 <= i < time_text_of(l[j as int].time).len() implies time_text_of(
                    l[j as int].time,
                )[i] != ',' && time_text_of(l[j as int].time)[i] != '"' && time_text_of(
                    l[j as int].time,
                )[i] != '\n' by {
                    assert(time_text_char(time_text_of(l[j as int].time)[i]));
                }
            }
        }
        j = j + 1;
    }
    proof {
        assert(l.take(l.len() as int) =~= l);
    }
    out
}

/// Law, run end to end: rendering a well-formed ledger and parsing the text
/// back yields a ledger with the very same records and no row skipped.
/// Verus proves the returned pair meets this from the two contracts above
/// alone.
pub fn rendered_ledger_reloads(ledger: &Ledger) -> (r: (Ledger, usize))
    requires
        ledger_wf(ledger@),
    ensures
        r.0@ == ledger@,
        r.1 == 0,
{
    let text = render_ledger(ledger);
    let reloaded = parse_ledger(&text);
    proof {
        assert(text@ == ledger_text(ledger@));
        assert(reloaded is Ok);
    }
    match reloaded {
        Ok(p) => p,
        Err(_) => {
            proof {
                assert(false);
            }
            unreached()
        },
    }
}

} // verus!

//! The delimited-text grammar: encoding and parsing of quoted records,
//! and the proof that parsing inverts encoding.
//!
//! A record is a sequence of fields joined by the delimiter and closed
//! by a line feed. A field that contains the delimiter, the quote, or a
//! line break is written quoted, with inner quotes doubled. The parser
//! accepts that grammar plus carriage-return line endings.

use vstd::prelude::*;

verus! {

/// A usable pair of delimiter and quote: distinct, and neither is a
/// line break.
pub open spec fn csv_cfg_wf(d: u8, q: u8) -> bool {
    d != q && d != 10 && d != 13 && q != 10 && q != 13
}

/// Does the field text require quoting?
pub open spec fn needs_quote(v: Seq<u8>, d: u8, q: u8) -> bool {
    exists|i: int| 0 <= i < v.len() && ((#[trigger] v[i]) == d || v[i] == q || v[i] == 10 || v[i] == 13)
}

/// The field text with every quote doubled.
pub open spec fn doubled_quotes(v: Seq<u8>, q: u8) -> Seq<u8>
    decreases v.len(),
{
    if v.len() == 0 {
        Seq::empty()
    } else {
        doubled_quotes(v.drop_last(), q) + if v.last() == q {
            seq![q, q]
        } else {
            seq![v.last()]
        }
    }
}

/// Doubling distributes over concatenation.
pub proof fn lemma_doubled_concat(a: Seq<u8>, b: Seq<u8>, q: u8)
    ensures
        doubled_quotes(a + b, q) == doubled_quotes(a, q) + doubled_quotes(b, q),
    decreases b.len(),
{
    if b.len() == 0 {
        assert(a + b =~= a);
        assert(doubled_quotes(a, q) + doubled_quotes(b, q) =~= doubled_quotes(a, q));
    } else {
        lemma_doubled_concat(a, b.drop_last(), q);
        assert((a + b).drop_last() =~= a + b.drop_last());
        assert((a + b).last() == b.last());
        assert(doubled_quotes(a, q) + doubled_quotes(b, q) =~= doubled_quotes(a, q) + (
        doubled_quotes(b.drop_last(), q) + if b.last() == q {
            seq![q, q]
        } else {
            seq![b.last()]
        }));
    }
}

/// Unfold doubling at the front.
pub proof fn lemma_doubled_first(v: Seq<u8>, q: u8)
    requires
        v.len() > 0,
    ensures
        doubled_quotes(v, q) == (if v.first() == q {
            seq![q, q]
        } else {
            seq![v.first()]
        }) + doubled_quotes(v.drop_first(), q),
{
    assert(v =~= seq![v.first()] + v.drop_first());
    lemma_doubled_concat(seq![v.first()], v.drop_first(), q);
    assert(seq![v.first()].drop_last() =~= Seq::<u8>::empty());
    assert(doubled_quotes(seq![v.first()], q) == doubled_quotes(Seq::<u8>::empty(), q) + if v.first() == q {
        seq![q, q]
    } else {
        seq![v.first()]
    });
    assert(doubled_quotes(seq![v.first()], q) =~= if v.first() == q {
        seq![q, q]
    } else {
        seq![v.first()]
    });
}

/// The encoding of one field.
pub open spec fn enc_field(v: Seq<u8>, d: u8, q: u8) -> Seq<u8> {
    if needs_quote(v, d, q) {
        seq![q] + doubled_quotes(v, q) + seq![q]
    } else {
        v
    }
}

/// The encoding of one record: fields joined by the delimiter.
pub open spec fn enc_record(vals: Seq<Seq<u8>>, d: u8, q: u8) -> Seq<u8>
    decreases vals.len(),
{
    if vals.len() == 0 {
        Seq::empty()
    } else if vals.len() == 1 {
        enc_field(vals.first(), d, q)
    } else {
        enc_field(vals.first(), d, q) + seq![d] + enc_record(vals.drop_first(), d, q)
    }
}

/// Append one field to an encoded record.
pub proof fn lemma_enc_record_push(vals: Seq<Seq<u8>>, v: Seq<u8>, d: u8, q: u8)
    ensures
        enc_record(vals.push(v), d, q) == if vals.len() == 0 {
            enc_field(v, d, q)
        } else {
            enc_record(vals, d, q) + seq![d] + enc_field(v, d, q)
        },
    decreases vals.len(),
{
    if vals.len() == 0 {
        assert(vals.push(v).len() == 1);
        assert(vals.push(v).first() == v);
    } else {
        lemma_enc_record_push(vals.drop_first(), v, d, q);
        assert(vals.push(v).drop_first() =~= vals.drop_first().push(v));
        assert(vals.push(v).first() == vals.first());
        if vals.len() == 1 {
            assert(vals.drop_first().len() == 0);
            assert(enc_record(vals.push(v), d, q) == enc_field(vals.first(), d, q) + seq![d]
                + enc_field(v, d, q));
            assert(enc_record(vals, d, q) == enc_field(vals.first(), d, q));
        } else {
            assert(enc_record(vals.push(v), d, q) =~= enc_record(vals, d, q) + seq![d] + enc_field(
                v,
                d,
                q,
            ));
        }
    }
}

/// The encoding of a sequence of records, each closed by a line feed.
pub open spec fn enc_rows(rows: Seq<Seq<Seq<u8>>>, d: u8, q: u8) -> Seq<u8>
    decreases rows.len(),
{
    if rows.len() == 0 {
        Seq::empty()
    } else {
        enc_record(rows.first(), d, q) + seq![10] + enc_rows(rows.drop_first(), d, q)
    }
}

/// Append one record to an encoded sequence of records.
pub proof fn lemma_enc_rows_push(rows: Seq<Seq<Seq<u8>>>, r: Seq<Seq<u8>>, d: u8, q: u8)
    ensures
        enc_rows(rows.push(r), d, q) == enc_rows(rows, d, q) + enc_record(r, d, q) + seq![10],
    decreases rows.len(),
{
    if rows.len() == 0 {
        assert(rows.push(r).first() == r);
        assert(rows.push(r).drop_first() =~= Seq::<Seq<Seq<u8>>>::empty());
        assert(enc_rows(Seq::<Seq<Seq<u8>>>::empty(), d, q) == Seq::<u8>::empty());
        assert(enc_rows(rows, d, q) == Seq::<u8>::empty());
        assert(enc_rows(rows.push(r), d, q) =~= enc_record(r, d, q) + seq![10]);
        assert(enc_rows(rows, d, q) + enc_record(r, d, q) + seq![10] =~= enc_record(r, d, q)
            + seq![10]);
    } else {
        lemma_enc_rows_push(rows.drop_first(), r, d, q);
        assert(rows.push(r).drop_first() =~= rows.drop_first().push(r));
        assert(rows.push(r).first() == rows.first());
        assert(enc_rows(rows.push(r), d, q) =~= enc_rows(rows, d, q) + enc_record(r, d, q)
            + seq![10]);
    }
}

/// Is `b` a field terminator under delimiter `d`?
pub open spec fn is_term(b: u8, d: u8) -> bool {
    b == d || b == 10 || b == 13
}

/// The end of an unquoted field starting at `i`: the first terminator
/// position, or the length.
pub open spec fn scan_plain_end(s: Seq<u8>, i: int, d: u8) -> int
    decreases s.len() - i,
{
    if i < 0 || i >= s.len() {
        i
    } else if is_term(s[i], d) {
        i
    } else {
        scan_plain_end(s, i + 1, d)
    }
}

pub proof fn lemma_scan_plain_end(s: Seq<u8>, i: int, d: u8)
    requires
        0 <= i <= s.len(),
    ensures
        i <= scan_plain_end(s, i, d) <= s.len(),
        forall|k: int| i <= k < scan_plain_end(s, i, d) ==> !is_term(#[trigger] s[k], d),
        scan_plain_end(s, i, d) < s.len() ==> is_term(s[scan_plain_end(s, i, d)], d),
    decreases s.len() - i,
{
    if i < s.len() && !is_term(s[i], d) {
        lemma_scan_plain_end(s, i + 1, d);
    }
}

/// Parse the remainder of a quoted field after the opening quote:
/// the value and the position just past the closing quote, or none if
/// the quote is unterminated.
pub open spec fn parse_quoted(s: Seq<u8>, i: int, q: u8) -> Option<(Seq<u8>, int)>
    decreases s.len() - i,
{
    if i < 0 || i >= s.len() {
        None
    } else if s[i] == q {
        if i + 1 < s.len() && s[i + 1] == q {
            match parse_quoted(s, i + 2, q) {
                Some(p) => Some((seq![q] + p.0, p.1)),
                None => None,
            }
        } else {
            Some((Seq::empty(), i + 1))
        }
    } else {
        match parse_quoted(s, i + 1, q) {
            Some(p) => Some((seq![s[i]] + p.0, p.1)),
            None => None,
        }
    }
}

/// Parse one field at `i`: quoted when it opens with the quote, plain
/// otherwise. A quoted field must end at a terminator or at the end of
/// the text.
pub open spec fn parse_field(s: Seq<u8>, i: int, d: u8, q: u8) -> Option<(Seq<u8>, int)> {
    if 0 <= i < s.len() && s[i] == q {
        match parse_quoted(s, i + 1, q) {
            Some(p) => if p.1 == s.len() || (0 <= p.1 < s.len() && is_term(s[p.1], d)) {
                Some(p)
            } else {
                None
            },
            None => None,
        }
    } else {
        let j = scan_plain_end(s, i, d);
        Some((s.subrange(i, j), j))
    }
}

/// Parse one record at `i`: fields joined by the delimiter, closed by a
/// line feed, a carriage return and line feed, a lone carriage return,
/// or the end of the text.
pub open spec fn parse_record(s: Seq<u8>, i: int, d: u8, q: u8) -> Option<(Seq<Seq<u8>>, int)>
    decreases s.len() - i,
{
    match parse_field(s, i, d, q) {
        None => None,
        Some(p) => {
            let v = p.0;
            // Parse positions never move backwards; the bound keeps the
            // recursion well-founded.
            let j: int = if p.1 < i {
                i
            } else {
                p.1
            };
            if j >= s.len() {
                Some((seq![v], j))
            } else if s[j] == d {
                match parse_record(s, j + 1, d, q) {
                    Some(rp) => Some((seq![v] + rp.0, rp.1)),
                    None => None,
                }
            } else if s[j] == 10 {
                Some((seq![v], j + 1))
            } else if s[j] == 13 {
                if j + 1 < s.len() && s[j + 1] == 10 {
                    Some((seq![v], j + 2))
                } else {
                    Some((seq![v], j + 1))
                }
            } else {
                None
            }
        },
    }
}

proof fn lemma_parse_quoted_enc(s: Seq<u8>, i: int, v: Seq<u8>, q: u8)
    requires
        0 <= i,
        i + doubled_quotes(v, q).len() + 1 <= s.len(),
        s.subrange(i, i + doubled_quotes(v, q).len()) == doubled_quotes(v, q),
        s[i + doubled_quotes(v, q).len()] == q,
        i + doubled_quotes(v, q).len() + 1 < s.len() ==> s[i + doubled_quotes(v, q).len() + 1]
            != q,
    ensures
        parse_quoted(s, i, q) == Some((v, i + doubled_quotes(v, q).len() + 1)),
    decreases v.len(),
{
    let dq = doubled_quotes(v, q);
    if v.len() == 0 {
        assert(dq.len() == 0);
        assert(s[i] == q);
    } else {
        lemma_doubled_first(v, q);
        let v2 = v.drop_first();
        let dq2 = doubled_quotes(v2, q);
        if v.first() == q {
            assert(dq == seq![q, q] + dq2);
            assert(dq.len() == 2 + dq2.len());
            assert(s[i] == s.subrange(i, i + dq.len())[0]);
            assert(s[i] == q);
            assert(s[i + 1] == s.subrange(i, i + dq.len())[1]);
            assert(s[i + 1] == q);
            assert(s.subrange(i + 2, i + 2 + dq2.len()) =~= dq2) by {
                assert(forall|k: int|
                    0 <= k < dq2.len() ==> (#[trigger] s.subrange(i + 2, i + 2 + dq2.len())[k]) == s.subrange(
                        i,
                        i + dq.len(),
                    )[k + 2]);
            }
            lemma_parse_quoted_enc(s, i + 2, v2, q);
            assert(parse_quoted(s, i, q) == Some((seq![q] + v2, i + dq.len() + 1)));
            assert(seq![q] + v2 =~= v);
        } else {
            let b = v.first();
            assert(dq == seq![b] + dq2);
            assert(dq.len() == 1 + dq2.len());
            assert(s[i] == s.subrange(i, i + dq.len())[0]);
            assert(s[i] == b);
            assert(b != q);
            assert(s.subrange(i + 1, i + 1 + dq2.len()) =~= dq2) by {
                assert(forall|k: int|
                    0 <= k < dq2.len() ==> (#[trigger] s.subrange(i + 1, i + 1 + dq2.len())[k]) == s.subrange(
                        i,
                        i + dq.len(),
                    )[k + 1]);
            }
            lemma_parse_quoted_enc(s, i + 1, v2, q);
            assert(parse_quoted(s, i, q) == Some((seq![b] + v2, i + dq.len() + 1)));
            assert(seq![b] + v2 =~= v);
        }
    }
}

proof fn lemma_scan_plain_of(s: Seq<u8>, i: int, n: int, d: u8)
    requires
        0 <= i,
        n >= 0,
        i + n <= s.len(),
        forall|k: int| i <= k < i + n ==> !is_term(#[trigger] s[k], d),
        i + n == s.len() || is_term(s[i + n], d),
    ensures
        scan_plain_end(s, i, d) == i + n,
    decreases n,
{
    if n == 0 {
    } else {
        assert(!is_term(s[i], d));
        lemma_scan_plain_of(s, i + 1, n - 1, d);
    }
}

proof fn lemma_parse_field_enc(s: Seq<u8>, i: int, v: Seq<u8>, d: u8, q: u8)
    requires
        csv_cfg_wf(d, q),
        0 <= i,
        i + enc_field(v, d, q).len() <= s.len(),
        s.subrange(i, i + enc_field(v, d, q).len()) == enc_field(v, d, q),
        i + enc_field(v, d, q).len() == s.len() || is_term(s[i + enc_field(v, d, q).len()], d),
    ensures
        parse_field(s, i, d, q) == Some((v, i + enc_field(v, d, q).len())),
{
    let ef = enc_field(v, d, q);
    if needs_quote(v, d, q) {
        let dq = doubled_quotes(v, q);
        assert(ef == seq![q] + dq + seq![q]);
        assert(ef.len() == dq.len() + 2);
        assert(s[i] == s.subrange(i, i + ef.len())[0]);
        assert(s[i] == q);
        assert(s.subrange(i + 1, i + 1 + dq.len()) =~= dq) by {
            assert(forall|k: int|
                0 <= k < dq.len() ==> (#[trigger] s.subrange(i + 1, i + 1 + dq.len())[k]) == s.subrange(
                    i,
                    i + ef.len(),
                )[k + 1]);
        }
        assert(s[i + 1 + dq.len()] == s.subrange(i, i + ef.len())[dq.len() as int + 1]);
        assert(s[i + 1 + dq.len()] == q);
        assert(i + 1 + dq.len() + 1 < s.len() ==> s[i + 1 + dq.len() + 1] != q) by {
            if i + ef.len() < s.len() {
                assert(is_term(s[i + ef.len()], d));
            }
        }
        lemma_parse_quoted_enc(s, i + 1, v, q);
        assert(parse_quoted(s, i + 1, q) == Some((v, i + ef.len())));
    } else {
        assert(ef == v);
        assert(forall|k: int| 0 <= k < v.len() ==> !((#[trigger] v[k]) == d || v[k] == q || v[k]
            == 10 || v[k] == 13));
        assert(forall|k: int| i <= k < i + v.len() ==> s[k] == s.subrange(i, i + v.len())[k - i]);
        assert(forall|k: int| i <= k < i + v.len() ==> !is_term(#[trigger] s[k], d));
        lemma_scan_plain_of(s, i, v.len() as int, d);
        if i < s.len() {
            if v.len() > 0 {
                assert(s[i] == v[0]);
                assert(s[i] != q);
            } else {
                assert(is_term(s[i], d));
                assert(s[i] != q);
            }
        }
        assert(s.subrange(i, i + v.len()) =~= v);
    }
}

proof fn lemma_parse_record_enc(s: Seq<u8>, i: int, vals: Seq<Seq<u8>>, d: u8, q: u8)
    requires
        csv_cfg_wf(d, q),
        vals.len() >= 1,
        0 <= i,
        i + enc_record(vals, d, q).len() < s.len(),
        s.subrange(i, i + enc_record(vals, d, q).len()) == enc_record(vals, d, q),
        s[i + enc_record(vals, d, q).len()] == 10,
    ensures
        parse_record(s, i, d, q) == Some((vals, i + enc_record(vals, d, q).len() + 1)),
    decreases vals.len(),
{
    let er = enc_record(vals, d, q);
    let v0 = vals.first();
    let ef = enc_field(v0, d, q);
    if vals.len() == 1 {
        assert(er == ef);
        lemma_parse_field_enc(s, i, v0, d, q);
        let j = i + ef.len();
        assert(s[j] == 10);
        assert(parse_record(s, i, d, q) == Some((seq![v0], j + 1)));
        assert(seq![v0] =~= vals);
    } else {
        let rest = vals.drop_first();
        let er2 = enc_record(rest, d, q);
        assert(er == ef + seq![d] + er2);
        assert(er.len() == ef.len() + 1 + er2.len());
        assert(s[i + ef.len()] == s.subrange(i, i + er.len())[ef.len() as int]);
        assert(s[i + ef.len()] == d);
        assert(is_term(s[i + ef.len()], d));
        assert(s.subrange(i, i + ef.len()) =~= ef) by {
            assert(forall|k: int|
                0 <= k < ef.len() ==> (#[trigger] s.subrange(i, i + ef.len())[k]) == s.subrange(
                    i,
                    i + er.len(),
                )[k]);
        }
        lemma_parse_field_enc(s, i, v0, d, q);
        let j = i + ef.len();
        assert(s[j] == d && d != 10 && d != 13);
        assert(s.subrange(j + 1, j + 1 + er2.len()) =~= er2) by {
            assert(forall|k: int|
                0 <= k < er2.len() ==> (#[trigger] s.subrange(j + 1, j + 1 + er2.len())[k]) == s.subrange(
                    i,
                    i + er.len(),
                )[k + ef.len() + 1]);
        }
        assert(s[j + 1 + er2.len()] == 10);
        lemma_parse_record_enc(s, j + 1, rest, d, q);
        assert(parse_record(s, j + 1, d, q) == Some((rest, i + er.len() + 1)));
        assert(parse_record(s, i, d, q) == Some((seq![v0] + rest, i + er.len() + 1)));
        assert(seq![v0] + rest =~= vals);
    }
}

proof fn lemma_parse_rows_enc(s: Seq<u8>, i: int, rows: Seq<Seq<Seq<u8>>>, d: u8, q: u8)
    requires
        csv_cfg_wf(d, q),
        forall|r: int| 0 <= r < rows.len() ==> (#[trigger] rows[r]).len() >= 1,
        0 <= i <= s.len(),
        i + enc_rows(rows, d, q).len() == s.len(),
        s.subrange(i, s.len() as int) == enc_rows(rows, d, q),
    ensures
        parse_rows(s, i, d, q) == Some(rows),
    decreases rows.len(),
{
    if rows.len() == 0 {
        assert(i == s.len());
    } else {
        let row0 = rows.first();
        let rest = rows.drop_first();
        let er = enc_record(row0, d, q);
        let tail = enc_rows(rest, d, q);
        assert(enc_rows(rows, d, q) == er + seq![10] + tail);
        assert(enc_rows(rows, d, q).len() == er.len() + 1 + tail.len());
        assert(s.subrange(i, i + er.len()) =~= er) by {
            assert(forall|k: int|
                0 <= k < er.len() ==> (#[trigger] s.subrange(i, i + er.len())[k]) == s.subrange(
                    i,
                    s.len() as int,
                )[k]);
        }
        assert(s[i + er.len()] == s.subrange(i, s.len() as int)[er.len() as int]);
        assert(s[i + er.len()] == 10);
        lemma_parse_record_enc(s, i, row0, d, q);
        let j = i + er.len() + 1;
        assert(s.subrange(j, s.len() as int) =~= tail) by {
            assert(forall|k: int|
                0 <= k < tail.len() ==> (#[trigger] s.subrange(j, s.len() as int)[k]) == s.subrange(
                    i,
                    s.len() as int,
                )[k + er.len() + 1]);
        }
        lemma_parse_rows_enc(s, j, rest, d, q);
        assert(parse_rows(s, i, d, q) == Some(seq![row0] + rest));
        assert(seq![row0] + rest =~= rows);
    }
}

/// The field values of one parsed record.
pub open spec fn deep_fields(v: Seq<Vec<u8>>) -> Seq<Seq<u8>> {
    v.map_values(|f: Vec<u8>| f@)
}

/// The field values of a parsed sequence of records.
pub open spec fn deep_rows(v: Seq<Vec<Vec<u8>>>) -> Seq<Seq<Seq<u8>>> {
    v.map_values(|r: Vec<Vec<u8>>| deep_fields(r@))
}

/// Decide whether a field needs quoting.
fn field_needs_quote(v: &Vec<u8>, d: u8, q: u8) -> (r: bool)
    ensures
        r == needs_quote(v@, d, q),
{
    let n: usize = v.len();
    for i in 0..n
        invariant
            n == v@.len(),
            forall|j: int|
                0 <= j < i ==> !((#[trigger] v@[j]) == d || v@[j] == q || v@[j] == 10 || v@[j]
                    == 13),
    {
        let b = v[i];
        if b == d || b == q || b == 10 || b == 13 {
            return true;
        }
    }
    false
}

/// Append the encoding of one field.
pub fn encode_field_into(out: &mut Vec<u8>, v: &Vec<u8>, d: u8, q: u8)
    ensures
        final (out)@ == old(out)@ + enc_field(v@, d, q),
{
    let n: usize = v.len();
    if !field_needs_quote(v, d, q) {
        let ghost base = out@;
        for i in 0..n
            invariant
                n == v@.len(),
                out@ == base + v@.take(i as int),
        {
            out.push(v[i]);
            proof {
                assert(out@ =~= base + v@.take(i as int + 1));
            }
        }
        proof {
            assert(v@.take(n as int) =~= v@);
        }
    } else {
        out.push(q);
        let ghost base = out@;
        for i in 0..n
            invariant
                n == v@.len(),
                out@ == base + doubled_quotes(v@.take(i as int), q),
        {
            let ghost pre = v@.take(i as int);
            proof {
                assert(v@.take(i as int + 1).drop_last() =~= pre);
                assert(v@.take(i as int + 1).last() == v@[i as int]);
            }
            let b = v[i];
            if b == q {
                out.push(q);
                out.push(q);
                proof {
                    assert(out@ =~= base + (doubled_quotes(pre, q) + seq![q, q]));
                }
            } else {
                out.push(b);
                proof {
                    assert(out@ =~= base + (doubled_quotes(pre, q) + seq![b]));
                }
            }
        }
        out.push(q);
        proof {
            assert(v@.take(n as int) =~= v@);
            assert(out@ =~= old(out)@ + (seq![q] + doubled_quotes(v@, q) + seq![q]));
        }
    }
}

/// Append the encoding of one record (no terminator).
pub fn encode_record_into(out: &mut Vec<u8>, vals: &Vec<Vec<u8>>, d: u8, q: u8)
    ensures
        final (out)@ == old(out)@ + enc_record(deep_fields(vals@), d, q),
{
    let n: usize = vals.len();
    for i in 0..n
        invariant
            n == vals@.len(),
            out@ == old(out)@ + enc_record(deep_fields(vals@).take(i as int), d, q),
    {
        proof {
            assert(deep_fields(vals@).take(i as int + 1) =~= deep_fields(vals@).take(
                i as int,
            ).push(vals@[i as int]@));
            lemma_enc_record_push(
                deep_fields(vals@).take(i as int),
                vals@[i as int]@,
                d,
                q,
            );
        }
        if i > 0 {
            out.push(d);
        }
        encode_field_into(out, &vals[i], d, q);
        proof {
            if i == 0 {
                assert(deep_fields(vals@).take(0).len() == 0);
                assert(out@ =~= old(out)@ + enc_record(deep_fields(vals@).take(1), d, q));
            } else {
                assert(out@ =~= old(out)@ + (enc_record(deep_fields(vals@).take(i as int), d, q)
                    + seq![d] + enc_field(vals@[i as int]@, d, q)));
            }
        }
    }
    proof {
        assert(deep_fields(vals@).take(n as int) =~= deep_fields(vals@));
    }
}

/// Encode records, each closed by a line feed.
pub fn encode_rows(rows: &Vec<Vec<Vec<u8>>>, d: u8, q: u8) -> (r: Vec<u8>)
    ensures
        r@ == enc_rows(deep_rows(rows@), d, q),
{
    let mut out: Vec<u8> = Vec::new();
    let n: usize = rows.len();
    for i in 0..n
        invariant
            n == rows@.len(),
            out@ == enc_rows(deep_rows(rows@).take(i as int), d, q),
    {
        proof {
            assert(deep_rows(rows@).take(i as int + 1) =~= deep_rows(rows@).take(i as int).push(
                deep_fields(rows@[i as int]@),
            ));
            lemma_enc_rows_push(
                deep_rows(rows@).take(i as int),
                deep_fields(rows@[i as int]@),
                d,
                q,
            );
        }
        encode_record_into(&mut out, &rows[i], d, q);
        out.push(10);
        proof {
            assert(out@ =~= enc_rows(deep_rows(rows@).take(i as int), d, q) + enc_record(
                deep_fields(rows@[i as int]@),
                d,
                q,
            ) + seq![10]);
        }
    }
    proof {
        assert(deep_rows(rows@).take(n as int) =~= deep_rows(rows@));
    }
    out
}

/// Parse one field, walking the bytes.
fn parse_field_at(s: &[u8], i: usize, d: u8, q: u8) -> (r: Option<(Vec<u8>, usize)>)
    requires
        i <= s@.len(),
    ensures
        match r {
            Some(p) => {
                &&& parse_field(s@, i as int, d, q) == Some((p.0@, p.1 as int))
                &&& i <= p.1 <= s@.len()
                &&& (p.1 == s@.len() || is_term(s@[p.1 as int], d))
            },
            None => parse_field(s@, i as int, d, q) is None,
        },
{
    let n: usize = s.len();
    let mut out: Vec<u8> = Vec::new();
    if i < n && s[i] == q {
        let mut j: usize = i + 1;
        loop
            invariant
                i + 1 <= j <= n,
                n == s@.len(),
                s@[i as int] == q,
                parse_quoted(s@, i as int + 1, q) == (match parse_quoted(s@, j as int, q) {
                    Some(p) => Some::<(Seq<u8>, int)>((out@ + p.0, p.1)),
                    None => None,
                }),
            decreases n - j,
        {
            if j >= n {
                return None;
            }
            let b = s[j];
            if b == q {
                if j + 1 < n && s[j + 1] == q {
                    out.push(q);
                    j = j + 2;
                    proof {
                        assert(forall|v2: Seq<u8>| out@.drop_last() + (seq![q] + v2) =~= out@ + v2);
                    }
                } else {
                    // Closing quote: the field must end here.
                    let k = j + 1;
                    proof {
                        assert(parse_quoted(s@, j as int, q) == Some(
                            (Seq::<u8>::empty(), j as int + 1),
                        ));
                        assert(out@ + Seq::<u8>::empty() =~= out@);
                    }
                    if k == n || s[k] == d || s[k] == 10 || s[k] == 13 {
                        return Some((out, k));
                    }
                    return None;
                }
            } else {
                out.push(b);
                j = j + 1;
                proof {
                    assert(forall|v2: Seq<u8>| out@.drop_last() + (seq![b] + v2) =~= out@ + v2);
                }
            }
        }
    } else {
        let mut j: usize = i;
        while j < n && s[j] != d && s[j] != 10 && s[j] != 13
            invariant
                i <= j <= n,
                n == s@.len(),
                scan_plain_end(s@, i as int, d) == scan_plain_end(s@, j as int, d),
                out@ == s@.subrange(i as int, j as int),
            decreases n - j,
        {
            out.push(s[j]);
            j = j + 1;
            proof {
                assert(out@ =~= s@.subrange(i as int, j as int));
            }
        }
        proof {
            assert(scan_plain_end(s@, j as int, d) == j as int);
        }
        Some((out, j))
    }
}

/// Parse one record, walking the fields.
fn parse_record_at(s: &[u8], i: usize, d: u8, q: u8) -> (r: Option<(Vec<Vec<u8>>, usize)>)
    requires
        i <= s@.len(),
    ensures
        match r {
            Some(p) => {
                &&& parse_record(s@, i as int, d, q) == Some((deep_fields(p.0@), p.1 as int))
                &&& i <= p.1 <= s@.len()
                &&& (i < s@.len() ==> p.1 >= i + 1)
            },
            None => parse_record(s@, i as int, d, q) is None,
        },
{
    let n: usize = s.len();
    let mut fields: Vec<Vec<u8>> = Vec::new();
    let mut cur: usize = i;
    loop
        invariant
            i <= cur <= n,
            n == s@.len(),
            parse_record(s@, i as int, d, q) == (match parse_record(s@, cur as int, d, q) {
                Some(p) => Some::<(Seq<Seq<u8>>, int)>((deep_fields(fields@) + p.0, p.1)),
                None => None,
            }),
        decreases n - cur,
    {
        let parsed = parse_field_at(s, cur, d, q);
        match parsed {
            None => {
                return None;
            },
            Some(p) => {
                let v = p.0;
                let j = p.1;
                let ghost vview = v@;
                if j == n {
                    fields.push(v);
                    proof {
                        assert(parse_record(s@, cur as int, d, q) == Some(
                            (seq![vview], j as int),
                        ));
                        assert(deep_fields(fields@) =~= deep_fields(fields@.drop_last())
                            + seq![vview]);
                    }
                    return Some((fields, j));
                }
                let b = s[j];
                if b == d {
                    fields.push(v);
                    proof {
                        assert(deep_fields(fields@) =~= deep_fields(fields@.drop_last())
                            + seq![vview]);
                        assert(forall|vs2: Seq<Seq<u8>>|
                            deep_fields(fields@.drop_last()) + (seq![vview] + vs2) =~= deep_fields(
                                fields@,
                            ) + vs2);
                    }
                    cur = j + 1;
                } else if b == 13 {
                    let next: usize = if j + 1 < n && s[j + 1] == 10 {
                        j + 2
                    } else {
                        j + 1
                    };
                    fields.push(v);
                    proof {
                        assert(parse_record(s@, cur as int, d, q) == Some(
                            (seq![vview], next as int),
                        ));
                        assert(deep_fields(fields@) =~= deep_fields(fields@.drop_last())
                            + seq![vview]);
                    }
                    return Some((fields, next));
                } else {
                    // Only the line feed remains among the terminators.
                    proof {
                        assert(s@[j as int] == 10);
                        assert(parse_record(s@, cur as int, d, q) == Some(
                            (seq![vview], j as int + 1),
                        ));
                    }
                    fields.push(v);
                    proof {
                        assert(deep_fields(fields@) =~= deep_fields(fields@.drop_last())
                            + seq![vview]);
                    }
                    return Some((fields, j + 1));
                }
            },
        }
    }
}

/// Parse a whole text into records.
pub fn csv_parse(s: &[u8], d: u8, q: u8) -> (r: Option<Vec<Vec<Vec<u8>>>>)
    ensures
        match r {
            Some(rows) => parse_rows(s@, 0, d, q) == Some(deep_rows(rows@)),
            None => parse_rows(s@, 0, d, q) is None,
        },
{
    let n: usize = s.len();
    let mut rows: Vec<Vec<Vec<u8>>> = Vec::new();
    let mut cur: usize = 0;
    while cur < n
        invariant
            cur <= n,
            n == s@.len(),
            parse_rows(s@, 0, d, q) == (match parse_rows(s@, cur as int, d, q) {
                Some(rest) => Some::<Seq<Seq<Seq<u8>>>>(deep_rows(rows@) + rest),
                None => None,
            }),
        decreases n - cur,
    {
        let parsed = parse_record_at(s, cur, d, q);
        match parsed {
            None => {
                return None;
            },
            Some(p) => {
                let rec = p.0;
                let next = p.1;
                let ghost recview = deep_fields(rec@);
                rows.push(rec);
                proof {
                    assert(deep_rows(rows@) =~= deep_rows(rows@.drop_last()) + seq![recview]);
                    assert(forall|rest: Seq<Seq<Seq<u8>>>|
                        deep_rows(rows@.drop_last()) + (seq![recview] + rest) =~= deep_rows(rows@)
                            + rest);
                }
                cur = next;
            },
        }
    }
    proof {
        assert(parse_rows(s@, cur as int, d, q) == Some(Seq::<Seq<Seq<u8>>>::empty()));
        assert(deep_rows(rows@) + Seq::<Seq<Seq<u8>>>::empty() =~= deep_rows(rows@));
    }
    Some(rows)
}

/// Parsing inverts encoding: a sequence of non-empty records encodes to
/// text that parses back to exactly those records.
pub proof fn lemma_csv_text_round_trip(rows: Seq<Seq<Seq<u8>>>, d: u8, q: u8)
    requires
        csv_cfg_wf(d, q),
        forall|r: int| 0 <= r < rows.len() ==> (#[trigger] rows[r]).len() >= 1,
    ensures
        parse_rows(enc_rows(rows, d, q), 0, d, q) == Some(rows),
{
    let s = enc_rows(rows, d, q);
    assert(s.subrange(0, s.len() as int) =~= s);
    lemma_parse_rows_enc(s, 0, rows, d, q);
}

/// Parse every record from `i` to the end of the text.
pub open spec fn parse_rows(s: Seq<u8>, i: int, d: u8, q: u8) -> Option<Seq<Seq<Seq<u8>>>>
    decreases s.len() - i,
{
    if i >= s.len() {
        Some(Seq::empty())
    } else {
        match parse_record(s, i, d, q) {
            None => None,
            Some(p) => {
                let j: int = if p.1 <= i {
                    i + 1
                } else if p.1 > s.len() {
                    s.len() as int
                } else {
                    p.1
                };
                match parse_rows(s, j, d, q) {
                    Some(rest) => Some(seq![p.0] + rest),
                    None => None,
                }
            },
        }
    }
}

} // verus!

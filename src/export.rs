use vstd::prelude::*;
use crate::code::push_char;
use crate::request::CouponError;
use crate::stream::CouponStream;
use crate::generator::texts;

verus! {

/// The header row of an export, with its line end.
pub open spec fn header_line() -> Seq<char> {
    seq!['C', 'o', 'u', 'p', 'o', 'n', '\n']
}

/// A field that the tabular format writes as it stands: not empty, and free
/// of the separator, the quote and line ends.
pub open spec fn plain_field(c: Seq<char>) -> bool {
    &&& c.len() > 0
    &&& forall|i: int| 0 <= i < c.len() ==> {
        &&& #[trigger] c[i] != ','
        &&& c[i] != '"'
        &&& c[i] != '\r'
        &&& c[i] != '\n'
    }
}

pub open spec fn all_plain(codes: Seq<Seq<char>>) -> bool {
    forall|i: int| 0 <= i < codes.len() ==> plain_field(#[trigger] codes[i])
}

pub open spec fn no_newline(c: Seq<char>) -> bool {
    forall|i: int| 0 <= i < c.len() ==> #[trigger] c[i] != '\n'
}

/// One line per code, each ended by `\n`.
pub open spec fn csv_body(codes: Seq<Seq<char>>) -> Seq<char>
    decreases codes.len(),
{
    if codes.len() == 0 {
        Seq::empty()
    } else {
        csv_body(codes.drop_last()) + codes.last().push('\n')
    }
}

/// The whole export of `codes`: the header row, then one row per code.
pub open spec fn csv_text(codes: Seq<Seq<char>>) -> Seq<char> {
    header_line() + csv_body(codes)
}

/// Relies on csv::Writer with its default settings (comma separator, quotes
/// only where needed, `\n` after each record) writing into memory: a fresh
/// writer takes one record of any field count, writing to a `Vec` does not
/// fail, and the output is the field's UTF-8 plus ASCII quotes and `\n`; so
/// the call succeeds, and a plain field comes out followed by `\n`.
#[verifier::external_body]
fn csv_record(field: &str) -> (r: Result<String, CouponError>)
    ensures
        r is Ok,
        plain_field(field@) ==> r->Ok_0@ == field@.push('\n'),
{
    let mut w = csv::Writer::from_writer(Vec::new());
    w.write_record(&[field]).map_err(|_| CouponError::CsvWriteError)?;
    let bytes = w.into_inner().map_err(|_| CouponError::CsvWriteError)?;
    String::from_utf8(bytes).map_err(|_| CouponError::CsvWriteError)
}

/// The row of one code: the code followed by `\n` where it is a plain field
/// (quoted by the tabular format otherwise). Lets a caller write each row as
/// it pulls a code.
pub fn coupon_row(code: &str) -> (r: Result<String, CouponError>)
    ensures
        r is Ok,
        plain_field(code@) ==> r->Ok_0@ == code@.push('\n'),
{
    csv_record(code)
}

/// Relies on str::chars: the characters of `s`, in order.
#[verifier::external_body]
fn chars_of(s: &str) -> (r: Vec<char>)
    ensures
        r@ == s@,
{
    s.chars().collect()
}

proof fn lemma_body_push(codes: Seq<Seq<char>>, c: Seq<char>)
    ensures
        csv_body(codes.push(c)) == csv_body(codes) + c.push('\n'),
{
    assert(codes.push(c).drop_last() =~= codes);
}

/// The header row of an export.
pub fn header_row() -> (r: Result<String, CouponError>)
    ensures
        r is Ok,
        r->Ok_0@ == header_line(),
{
    proof {
        reveal_strlit("Coupon");
    }
    let h = csv_record("Coupon");
    proof {
        assert(h is Ok);
    }
    proof {
        assert(plain_field("Coupon"@));
        assert("Coupon"@.push('\n') =~= header_line());
    }
    h
}

/// Writes a list of codes: the header row, then one row per code. The call
/// succeeds; where every code is a plain field the text is exactly `csv_text` of the list.
pub fn write_coupon_list_to_csv(coupons: &Vec<String>) -> (r: Result<String, CouponError>)
    ensures
        r is Ok,
        all_plain(texts(coupons@)) ==> r->Ok_0@ == csv_text(texts(coupons@)),
{
    let mut out = match header_row() {
        Ok(h) => h,
        Err(e) => return Err(e),
    };
    let mut i: usize = 0;
    while i < coupons.len()
        invariant
            i <= coupons.len(),
            all_plain(texts(coupons@).subrange(0, i as int)) ==> out@ == csv_text(texts(coupons@).subrange(0, i as int)),
        decreases coupons.len() - i,
    {
        let rec = match coupon_row(coupons[i].as_str()) {
            Ok(x) => x,
            Err(e) => return Err(e),
        };
        let ghost before = out@;
        out.append(rec.as_str());
        proof {
            let done = texts(coupons@).subrange(0, i as int);
            let next = texts(coupons@).subrange(0, i + 1);
            assert(next =~= done.push(coupons@[i as int]@));
            if all_plain(next) {
                assert(plain_field(next[i as int]));
                lemma_body_push(done, coupons@[i as int]@);
                assert(out@ =~= csv_text(next));
            }
        }
        i = i + 1;
    }
    assert(texts(coupons@).subrange(0, coupons.len() as int) =~= texts(coupons@));
    Ok(out)
}

/// Drains a stream into the tabular format: the header row, then one row
/// per code as each is pulled. The call succeeds and leaves the stream
/// exhausted; where its codes are plain fields the text is exactly `csv_text` of the codes pulled
/// here.
pub fn write_coupons_to_csv(coupons: &mut CouponStream) -> (r: Result<String, CouponError>)
    requires
        old(coupons).wf(),
    ensures
        final(coupons).wf(),
        final(coupons).prefix_text() == old(coupons).prefix_text(),
        final(coupons).total_length() == old(coupons).total_length(),
        final(coupons).required() == old(coupons).required(),
        final(coupons).emitted().subrange(0, old(coupons).emitted().len() as int) == old(coupons).emitted(),
        r is Ok,
        final(coupons).emitted().len() == final(coupons).required(),
        all_plain(final(coupons).emitted().subrange(old(coupons).emitted().len() as int, final(coupons).emitted().len() as int))
            ==> r->Ok_0@ == csv_text(final(coupons).emitted().subrange(old(coupons).emitted().len() as int, final(coupons).emitted().len() as int)),
{
    let ghost start = coupons.emitted();
    let ghost s0 = start.len() as int;
    proof {
        coupons.lemma_emitted_codes();
        assert(coupons.emitted().subrange(0, s0) =~= start);
    }
    let mut out = match header_row() {
        Ok(h) => h,
        Err(e) => return Err(e),
    };
    proof {
        assert(coupons.emitted().subrange(s0, s0) =~= Seq::<Seq<char>>::empty());
    }
    while !coupons.is_exhausted()
        invariant
            coupons.wf(),
            coupons.prefix_text() == old(coupons).prefix_text(),
            coupons.total_length() == old(coupons).total_length(),
            coupons.required() == old(coupons).required(),
            start == old(coupons).emitted(),
            s0 == start.len(),
            s0 <= coupons.emitted().len(),
            coupons.emitted().subrange(0, s0) == start,
            all_plain(coupons.emitted().subrange(s0, coupons.emitted().len() as int))
                ==> out@ == csv_text(coupons.emitted().subrange(s0, coupons.emitted().len() as int)),
        decreases coupons.required() - coupons.emitted().len(),
    {
        proof {
            coupons.lemma_emitted_codes();
        }
        let ghost before = coupons.emitted();
        let ghost out_before = out@;
        match coupons.next() {
            Some(code) => {
                let rec = match coupon_row(code.as_str()) {
                    Ok(x) => x,
                    Err(e) => return Err(e),
                };
                out.append(rec.as_str());
                proof {
                    let after = coupons.emitted();
                    let done = before.subrange(s0, before.len() as int);
                    let next = after.subrange(s0, after.len() as int);
                    assert(after.subrange(0, s0) =~= before.subrange(0, s0));
                    assert(next =~= done.push(code@));
                    if all_plain(next) {
                        assert(plain_field(next[next.len() - 1]));
                        assert forall|i: int| 0 <= i < done.len() implies plain_field(#[trigger] done[i]) by {
                            assert(done[i] == next[i]);
                        }
                        lemma_body_push(done, code@);
                        assert(out@ =~= csv_text(next));
                    }
                }
            },
            None => {},
        }
    }
    proof {
        coupons.lemma_emitted_codes();
    }
    Ok(out)
}


/// Whether `t` has the shape of an export: the header row, then complete
/// lines only.
pub open spec fn is_csv_shaped(t: Seq<char>) -> bool {
    &&& t.len() >= 7
    &&& t.subrange(0, 7) == header_line()
    &&& (t.len() == 7 || t.last() == '\n')
}

/// Reads an export back: `None` unless the text starts with the header row
/// and ends with a complete line; otherwise the codes, one per line.
pub fn read_coupon_csv(text: &str) -> (r: Option<Vec<String>>)
    ensures
        r is Some <==> is_csv_shaped(text@),
        r is Some ==> csv_text(texts(r->0@)) == text@,
        r is Some ==> forall|i: int| 0 <= i < r->0@.len() ==> no_newline(#[trigger] r->0@[i]@),
{
    let cs = chars_of(text);
    if cs.len() < 7 {
        return None;
    }
    let header: [char; 7] = ['C', 'o', 'u', 'p', 'o', 'n', '\n'];
    let mut h: usize = 0;
    while h < 7
        invariant
            h <= 7,
            cs@ == text@,
            cs@.len() >= 7,
            header@ == header_line(),
            forall|t: int| 0 <= t < h ==> cs@[t] == header_line()[t],
        decreases 7 - h,
    {
        if cs[h] != header[h] {
            proof {
                assert(cs@.subrange(0, 7)[h as int] != header_line()[h as int]);
            }
            return None;
        }
        h = h + 1;
    }
    assert(cs@.subrange(0, 7) =~= header_line());
    let mut lines: Vec<String> = Vec::new();
    let mut cur = String::new();
    let mut i: usize = 7;
    while i < cs.len()
        invariant
            7 <= i <= cs.len(),
            cs@ == text@,
            cs@.subrange(0, 7) == header_line(),
            csv_body(texts(lines@)) + cur@ == cs@.subrange(7, i as int),
            no_newline(cur@),
            forall|t: int| 0 <= t < lines@.len() ==> no_newline(#[trigger] lines@[t]@),
            cur@.len() > 0 ==> cs@[i - 1] != '\n',
            cur@.len() == 0 && i > 7 ==> cs@[i - 1] == '\n',
        decreases cs.len() - i,
    {
        let c = cs[i];
        let ghost done = texts(lines@);
        if c == '\n' {
            let line = cur;
            let ghost lv = line@;
            lines.push(line);
            cur = String::new();
            proof {
                assert(texts(lines@) =~= done.push(lv));
                lemma_body_push(done, lv);
                assert(cs@.subrange(7, i + 1) =~= cs@.subrange(7, i as int).push(c));
                assert(csv_body(texts(lines@)) + cur@ =~= cs@.subrange(7, i + 1));
            }
        } else {
            let ghost before = cur@;
            push_char(&mut cur, c);
            proof {
                assert(cs@.subrange(7, i + 1) =~= cs@.subrange(7, i as int).push(c));
                assert(csv_body(done) + cur@ =~= cs@.subrange(7, i + 1));
                assert forall|t: int| 0 <= t < cur@.len() implies #[trigger] cur@[t] != '\n' by {
                    if t < before.len() {
                        assert(cur@[t] == before[t]);
                    }
                }
            }
        }
        i = i + 1;
    }
    proof {
        assert(cs@ =~= cs@.subrange(0, 7) + cs@.subrange(7, cs@.len() as int));
    }
    if cur.unicode_len() == 0 {
        proof {
            assert(csv_body(texts(lines@)) + cur@ =~= csv_body(texts(lines@)));
            assert(csv_text(texts(lines@)) =~= text@);
        }
        Some(lines)
    } else {
        None
    }
}

proof fn lemma_body_shape(codes: Seq<Seq<char>>)
    ensures
        csv_body(codes).len() == 0 <==> codes.len() == 0,
        csv_body(codes).len() > 0 ==> csv_body(codes).last() == '\n',
{
}

proof fn lemma_body_injective(a: Seq<Seq<char>>, b: Seq<Seq<char>>)
    requires
        forall|i: int| 0 <= i < a.len() ==> no_newline(#[trigger] a[i]),
        forall|i: int| 0 <= i < b.len() ==> no_newline(#[trigger] b[i]),
        csv_body(a) == csv_body(b),
    ensures
        a == b,
    decreases a.len(),
{
    lemma_body_shape(a);
    lemma_body_shape(b);
    if a.len() == 0 {
        assert(b.len() == 0);
        assert(a =~= b);
    } else {
        let x = csv_body(a.drop_last());
        let y = csv_body(b.drop_last());
        let la = a.last();
        let lb = b.last();
        let whole = csv_body(a);
        assert(whole == x + la.push('\n'));
        assert(whole == y + lb.push('\n'));
        lemma_body_shape(a.drop_last());
        lemma_body_shape(b.drop_last());
        assert(no_newline(la));
        assert(no_newline(lb));
        if la.len() < lb.len() {
            let p = x.len() - 1;
            assert(x.len() > y.len());
            assert(whole[p] == x[p]);
            assert(whole[p] == lb[p - y.len()]);
        } else if lb.len() < la.len() {
            let p = y.len() - 1;
            assert(y.len() > x.len());
            assert(whole[p] == y[p]);
            assert(whole[p] == la[p - x.len()]);
        }
        assert(x.len() == y.len());
        assert(x =~= whole.subrange(0, x.len() as int));
        assert(y =~= whole.subrange(0, y.len() as int));
        assert forall|t: int| 0 <= t < la.len() implies la[t] == lb[t] by {
            assert(whole[x.len() + t] == la[t]);
            assert(whole[y.len() + t] == lb[t]);
        }
        assert(la =~= lb);
        lemma_body_injective(a.drop_last(), b.drop_last());
        assert(a =~= a.drop_last().push(la));
        assert(b =~= b.drop_last().push(lb));
    }
}

/// Exporting codes that hold no line end and reading the text back gives the
/// same codes, in the same order; so the text has one line per code after
/// the header.
pub proof fn lemma_export_round_trip(codes: Seq<Seq<char>>, parsed: Seq<Seq<char>>)
    requires
        forall|i: int| 0 <= i < codes.len() ==> no_newline(#[trigger] codes[i]),
        forall|i: int| 0 <= i < parsed.len() ==> no_newline(#[trigger] parsed[i]),
        csv_text(parsed) == csv_text(codes),
    ensures
        parsed == codes,
        parsed.len() == codes.len(),
{
    let t = csv_text(codes);
    assert(csv_body(codes) =~= t.subrange(7, t.len() as int));
    assert(csv_body(parsed) =~= t.subrange(7, t.len() as int));
    lemma_body_injective(parsed, codes);
}

/// An export is always read back: its text has the shape `read_coupon_csv`
/// accepts.
pub proof fn lemma_export_is_readable(codes: Seq<Seq<char>>)
    ensures
        is_csv_shaped(csv_text(codes)),
{
    lemma_body_shape(codes);
    let t = csv_text(codes);
    assert(t.subrange(0, 7) =~= header_line());
}

} // verus!

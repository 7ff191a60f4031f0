//! Canonical text form of a [`Document`] and its parser.
//!
//! A document is written as four lines, one per section, each holding the
//! section's name, a colon, and the section's entries as decimal numbers
//! separated by commas:
//!
//! ```text
//! sources:1,2,3
//! metatiles:
//! metatilesets:7
//! maps:4,5
//! ```
//!
//! The encoding is canonical (no leading zeros, no trailing separators),
//! and parsing is exact: `parse` accepts precisely the strings that
//! `dec_doc` accepts, and every serialized document parses back to itself
//! ([`lemma_round_trip`]).

use vstd::prelude::*;

use crate::document::{DocView, Document};

verus! {

/// Error returned when project content is not a well-formed document.
#[derive(Debug, PartialEq, Eq)]
pub struct ParseError;

pub open spec fn is_digit(b: u8) -> bool {
    48 <= b && b <= 57
}

pub open spec fn all_digits(s: Seq<u8>) -> bool {
    forall|i: int| 0 <= i < s.len() ==> is_digit(s[i])
}

/// A canonical decimal token: nonempty, digits only, no leading zero.
pub open spec fn canon_num(s: Seq<u8>) -> bool {
    &&& s.len() > 0
    &&& all_digits(s)
    &&& (s[0] == 48 ==> s.len() == 1)
}

/// Value of a digit string, most significant digit first.
pub open spec fn digits_val(s: Seq<u8>) -> nat
    decreases s.len(),
{
    if s.len() == 0 {
        0
    } else {
        digits_val(s.drop_last()) * 10 + (s.last() - 48) as nat
    }
}

/// Canonical decimal digits of `n`.
pub open spec fn enc_num(n: nat) -> Seq<u8>
    decreases n,
{
    if n < 10 {
        seq![(48 + n) as u8]
    } else {
        enc_num(n / 10).push((48 + n % 10) as u8)
    }
}

/// Comma-separated canonical decimals of a section's entries.
pub open spec fn enc_items(l: Seq<u32>) -> Seq<u8>
    decreases l.len(),
{
    if l.len() == 0 {
        Seq::empty()
    } else if l.len() == 1 {
        enc_num(l[0] as nat)
    } else {
        enc_num(l[0] as nat) + seq![44u8] + enc_items(l.skip(1))
    }
}

pub open spec fn key_sources() -> Seq<u8> {
    seq![115u8, 111u8, 117u8, 114u8, 99u8, 101u8, 115u8]
}

pub open spec fn key_metatiles() -> Seq<u8> {
    seq![109u8, 101u8, 116u8, 97u8, 116u8, 105u8, 108u8, 101u8, 115u8]
}

pub open spec fn key_metatilesets() -> Seq<u8> {
    seq![109u8, 101u8, 116u8, 97u8, 116u8, 105u8, 108u8, 101u8, 115u8, 101u8, 116u8, 115u8]
}

pub open spec fn key_maps() -> Seq<u8> {
    seq![109u8, 97u8, 112u8, 115u8]
}

pub open spec fn section_key(sec: int) -> Seq<u8> {
    if sec == 0 {
        key_sources()
    } else if sec == 1 {
        key_metatiles()
    } else if sec == 2 {
        key_metatilesets()
    } else {
        key_maps()
    }
}

/// One section line: name, colon, entries, newline.
pub open spec fn enc_line(key: Seq<u8>, l: Seq<u32>) -> Seq<u8> {
    key + seq![58u8] + enc_items(l) + seq![10u8]
}

/// The canonical text form of a document.
pub open spec fn enc_doc(d: DocView) -> Seq<u8> {
    enc_line(key_sources(), d.sources) + enc_line(key_metatiles(), d.metatiles) + enc_line(
        key_metatilesets(),
        d.metatilesets,
    ) + enc_line(key_maps(), d.maps)
}

/// Index of the first occurrence of `c` in `s`, or `s.len()` if none.
pub open spec fn scan_to(s: Seq<u8>, c: u8) -> int
    decreases s.len(),
{
    if s.len() == 0 {
        0
    } else if s[0] == c {
        0
    } else {
        1 + scan_to(s.skip(1), c)
    }
}

/// Decodes a nonempty comma-separated list of canonical decimals.
pub open spec fn dec_items(s: Seq<u8>) -> Option<Seq<u32>>
    decreases s.len(),
{
    let k = scan_to(s, 44);
    if k <= 0 || k > s.len() {
        None
    } else {
        let tok = s.subrange(0, k);
        if !canon_num(tok) || digits_val(tok) > 0xffff_ffff {
            None
        } else if k == s.len() {
            Some(seq![digits_val(tok) as u32])
        } else {
            match dec_items(s.subrange(k + 1, s.len() as int)) {
                None => None,
                Some(r) => Some(seq![digits_val(tok) as u32] + r),
            }
        }
    }
}

/// Decodes a possibly empty entry list.
pub open spec fn dec_list(s: Seq<u8>) -> Option<Seq<u32>> {
    if s.len() == 0 {
        Some(Seq::empty())
    } else {
        dec_items(s)
    }
}

/// Decodes one section line (without its newline) against its name.
pub open spec fn dec_line(line: Seq<u8>, key: Seq<u8>) -> Option<Seq<u32>> {
    if line.len() < key.len() + 1 {
        None
    } else if line.subrange(0, key.len() as int) != key {
        None
    } else if line[key.len() as int] != 58 {
        None
    } else {
        dec_list(line.subrange(key.len() as int + 1, line.len() as int))
    }
}

/// Decodes a whole document: four named lines and nothing after them.
pub open spec fn dec_doc(s: Seq<u8>) -> Option<DocView> {
    let e0 = scan_to(s, 10);
    if e0 >= s.len() {
        None
    } else {
        match dec_line(s.subrange(0, e0), key_sources()) {
            None => None,
            Some(sources) => {
                let r0 = s.subrange(e0 + 1, s.len() as int);
                let e1 = scan_to(r0, 10);
                if e1 >= r0.len() {
                    None
                } else {
                    match dec_line(r0.subrange(0, e1), key_metatiles()) {
                        None => None,
                        Some(metatiles) => {
                            let r1 = r0.subrange(e1 + 1, r0.len() as int);
                            let e2 = scan_to(r1, 10);
                            if e2 >= r1.len() {
                                None
                            } else {
                                match dec_line(r1.subrange(0, e2), key_metatilesets()) {
                                    None => None,
                                    Some(metatilesets) => {
                                        let r2 = r1.subrange(e2 + 1, r1.len() as int);
                                        let e3 = scan_to(r2, 10);
                                        if e3 >= r2.len() {
                                            None
                                        } else {
                                            match dec_line(r2.subrange(0, e3), key_maps()) {
                                                None => None,
                                                Some(maps) => {
                                                    let r3 = r2.subrange(e3 + 1, r2.len() as int);
                                                    if r3.len() != 0 {
                                                        None
                                                    } else {
                                                        Some(
                                                            DocView {
                                                                sources,
                                                                metatiles,
                                                                metatilesets,
                                                                maps,
                                                            },
                                                        )
                                                    }
                                                },
                                            }
                                        }
                                    },
                                }
                            }
                        },
                    }
                }
            },
        }
    }
}

/// Section-list bytes are digits and commas only.
pub open spec fn items_bytes_ok(s: Seq<u8>) -> bool {
    forall|i: int| 0 <= i < s.len() ==> (is_digit(s[i]) || s[i] == 44)
}

proof fn lemma_scan_to_at(s: Seq<u8>, c: u8, k: int)
    requires
        0 <= k <= s.len(),
        forall|m: int| 0 <= m < k ==> s[m] != c,
        k < s.len() ==> s[k] == c,
    ensures
        scan_to(s, c) == k,
    decreases k,
{
    if k == 0 {
        if s.len() > 0 {
            assert(s[0] == c);
        }
    } else {
        assert(s[0] != c);
        lemma_scan_to_at(s.skip(1), c, k - 1);
    }
}

proof fn lemma_enc_num(n: nat)
    ensures
        enc_num(n).len() >= 1,
        all_digits(enc_num(n)),
        canon_num(enc_num(n)),
        digits_val(enc_num(n)) == n,
    decreases n,
{
    if n < 10 {
        let e = enc_num(n);
        assert(e =~= seq![(48 + n) as u8]);
        assert(e.drop_last() =~= Seq::<u8>::empty());
        assert(digits_val(e) == digits_val(e.drop_last()) * 10 + (e.last() - 48) as nat);
    } else {
        lemma_enc_num(n / 10);
        let p = enc_num(n / 10);
        let e = enc_num(n);
        assert(e == p.push((48 + n % 10) as u8));
        assert(e.drop_last() =~= p);
        assert(e.last() == (48 + n % 10) as u8);
        assert(n % 10 < 10);
        assert(digits_val(e) == digits_val(p) * 10 + (e.last() - 48) as nat);
        assert(n / 10 * 10 + n % 10 == n) by (nonlinear_arith);
        assert(forall|i: int| 0 <= i < e.len() ==> is_digit(#[trigger] e[i])) by {
            assert(forall|i: int| 0 <= i < p.len() ==> is_digit(#[trigger] p[i]));
            assert(forall|i: int|
                0 <= i < e.len() ==> e[i] == if i < p.len() {
                    p[i]
                } else {
                    (48 + n % 10) as u8
                });
        }
        assert(e[0] == p[0]);
        if e[0] == 48 {
            assert(p.len() == 1);
            assert(p.drop_last() =~= Seq::<u8>::empty());
            assert(digits_val(p) == digits_val(p.drop_last()) * 10 + (p.last() - 48) as nat);
            assert(n / 10 == 0);
            assert(false);
        }
    }
}

/// The value of a digit string never falls when digits are appended.
proof fn lemma_digits_val_prefix_mono(t: Seq<u8>, p: int)
    requires
        0 <= p <= t.len(),
    ensures
        digits_val(t) >= digits_val(t.subrange(0, p)),
    decreases t.len() - p,
{
    if p == t.len() {
        assert(t.subrange(0, p) =~= t);
    } else {
        let a = t.subrange(0, p);
        let b = t.subrange(0, p + 1);
        assert(b.drop_last() =~= a);
        assert(digits_val(b) == digits_val(a) * 10 + (b.last() - 48) as nat);
        assert(digits_val(a) * 10 >= digits_val(a)) by (nonlinear_arith);
        lemma_digits_val_prefix_mono(t, p + 1);
    }
}

/// Decoding inverts encoding on a nonempty entry list, and the encoding
/// holds digits and commas only.
proof fn lemma_dec_items_enc(l: Seq<u32>)
    requires
        l.len() > 0,
    ensures
        enc_items(l).len() > 0,
        items_bytes_ok(enc_items(l)),
        dec_items(enc_items(l)) == Some(l),
    decreases l.len(),
{
    let e = enc_items(l);
    lemma_enc_num(l[0] as nat);
    let a = enc_num(l[0] as nat);
    if l.len() == 1 {
        assert(e == a);
        lemma_scan_to_at(e, 44, e.len() as int);
        let k = scan_to(e, 44);
        assert(k == e.len());
        let tok = e.subrange(0, k);
        assert(tok =~= a);
        assert(digits_val(tok) == l[0] as nat);
        assert(digits_val(tok) <= 0xffff_ffff);
        assert(dec_items(e) == Some(seq![digits_val(tok) as u32]));
        assert(seq![digits_val(tok) as u32] =~= l);
    } else {
        lemma_dec_items_enc(l.skip(1));
        let rest = enc_items(l.skip(1));
        assert(e == a + seq![44u8] + rest);
        assert(forall|i: int| 0 <= i < a.len() ==> e[i] == a[i]);
        assert(e[a.len() as int] == 44);
        assert(forall|i: int|
            a.len() + 1 <= i < e.len() ==> e[i] == rest[i - a.len() - 1]);
        lemma_scan_to_at(e, 44, a.len() as int);
        let k = scan_to(e, 44);
        assert(k == a.len());
        assert(0 < k < e.len());
        let tok = e.subrange(0, k);
        assert(tok =~= a);
        assert(digits_val(tok) == l[0] as nat);
        let tail = e.subrange(k + 1, e.len() as int);
        assert(tail =~= rest);
        assert(dec_items(tail) == Some(l.skip(1)));
        assert(dec_items(e) == Some(seq![digits_val(tok) as u32] + l.skip(1)));
        assert(seq![digits_val(tok) as u32] + l.skip(1) =~= l);
        assert(items_bytes_ok(e));
    }
}

/// Decoding inverts encoding on one full section line (less its newline).
proof fn lemma_dec_line_enc(key: Seq<u8>, l: Seq<u32>)
    ensures
        dec_line(key + seq![58u8] + enc_items(l), key) == Some(l),
{
    let line = key + seq![58u8] + enc_items(l);
    assert(line.len() >= key.len() + 1);
    assert(line.subrange(0, key.len() as int) =~= key);
    assert(line[key.len() as int] == 58);
    let body = line.subrange(key.len() as int + 1, line.len() as int);
    assert(body =~= enc_items(l));
    if l.len() == 0 {
        assert(body.len() == 0);
        assert(dec_list(body) == Some(Seq::<u32>::empty()));
        assert(Seq::<u32>::empty() =~= l);
    } else {
        lemma_dec_items_enc(l);
    }
}

/// No byte of a section line before its newline is a newline: keys are
/// lower-case letters, the separator is a colon, entries are digits and
/// commas.
proof fn lemma_line_content_no_lf(key: Seq<u8>, l: Seq<u32>)
    requires
        forall|i: int| 0 <= i < key.len() ==> 97 <= #[trigger] key[i] <= 122,
    ensures
        forall|i: int|
            0 <= i < (key + seq![58u8] + enc_items(l)).len() ==> (key + seq![58u8] + enc_items(
                l,
            ))[i] != 10,
{
    let c = key + seq![58u8] + enc_items(l);
    if l.len() > 0 {
        lemma_dec_items_enc(l);
    }
    assert(forall|i: int|
        0 <= i < c.len() ==> c[i] == if i < key.len() {
            key[i]
        } else if i == key.len() {
            58u8
        } else {
            enc_items(l)[i - key.len() - 1]
        });
}

/// Splitting the concatenation of a newline-free line content, a newline,
/// and a remainder recovers the content and the remainder.
proof fn lemma_split_line(s: Seq<u8>, content: Seq<u8>, rest: Seq<u8>)
    requires
        s == content + seq![10u8] + rest,
        forall|i: int| 0 <= i < content.len() ==> content[i] != 10,
    ensures
        scan_to(s, 10) == content.len(),
        scan_to(s, 10) < s.len(),
        s.subrange(0, content.len() as int) == content,
        s.subrange(content.len() as int + 1, s.len() as int) == rest,
{
    assert(forall|i: int| 0 <= i < content.len() ==> s[i] == content[i]);
    assert(s[content.len() as int] == 10);
    lemma_scan_to_at(s, 10, content.len() as int);
    assert(s.subrange(0, content.len() as int) =~= content);
    assert(s.subrange(content.len() as int + 1, s.len() as int) =~= rest);
}

/// The round-trip law: the canonical text of any document decodes back to
/// that document.
#[verifier::rlimit(100)]
pub proof fn lemma_round_trip(d: DocView)
    ensures
        dec_doc(enc_doc(d)) == Some(d),
{
    let c0 = key_sources() + seq![58u8] + enc_items(d.sources);
    let c1 = key_metatiles() + seq![58u8] + enc_items(d.metatiles);
    let c2 = key_metatilesets() + seq![58u8] + enc_items(d.metatilesets);
    let c3 = key_maps() + seq![58u8] + enc_items(d.maps);
    let s = enc_doc(d);
    let r0 = c1 + seq![10u8] + (c2 + seq![10u8] + (c3 + seq![10u8] + Seq::<u8>::empty()));
    let r1 = c2 + seq![10u8] + (c3 + seq![10u8] + Seq::<u8>::empty());
    let r2 = c3 + seq![10u8] + Seq::<u8>::empty();
    assert(s =~= c0 + seq![10u8] + r0);
    lemma_line_content_no_lf(key_sources(), d.sources);
    lemma_line_content_no_lf(key_metatiles(), d.metatiles);
    lemma_line_content_no_lf(key_metatilesets(), d.metatilesets);
    lemma_line_content_no_lf(key_maps(), d.maps);
    lemma_split_line(s, c0, r0);
    lemma_dec_line_enc(key_sources(), d.sources);
    lemma_split_line(r0, c1, c2 + seq![10u8] + (c3 + seq![10u8] + Seq::<u8>::empty()));
    lemma_dec_line_enc(key_metatiles(), d.metatiles);
    lemma_split_line(r1, c2, c3 + seq![10u8] + Seq::<u8>::empty());
    lemma_dec_line_enc(key_metatilesets(), d.metatilesets);
    lemma_split_line(r2, c3, Seq::<u8>::empty());
    lemma_dec_line_enc(key_maps(), d.maps);
    assert(dec_doc(s) == Some(
        DocView {
            sources: d.sources,
            metatiles: d.metatiles,
            metatilesets: d.metatilesets,
            maps: d.maps,
        },
    ));
    assert(DocView {
        sources: d.sources,
        metatiles: d.metatiles,
        metatilesets: d.metatilesets,
        maps: d.maps,
    } =~= d);
}

/// The bytes of one section's name.
fn key_bytes(sec: usize) -> (v: Vec<u8>)
    requires
        sec < 4,
    ensures
        v@ == section_key(sec as int),
{
    let mut v: Vec<u8> = Vec::new();
    if sec == 0 {
        v.push(115);
        v.push(111);
        v.push(117);
        v.push(114);
        v.push(99);
        v.push(101);
        v.push(115);
        proof {
            assert(v@ =~= key_sources());
        }
    } else if sec == 1 {
        v.push(109);
        v.push(101);
        v.push(116);
        v.push(97);
        v.push(116);
        v.push(105);
        v.push(108);
        v.push(101);
        v.push(115);
        proof {
            assert(v@ =~= key_metatiles());
        }
    } else if sec == 2 {
        v.push(109);
        v.push(101);
        v.push(116);
        v.push(97);
        v.push(116);
        v.push(105);
        v.push(108);
        v.push(101);
        v.push(115);
        v.push(101);
        v.push(116);
        v.push(115);
        proof {
            assert(v@ =~= key_metatilesets());
        }
    } else {
        v.push(109);
        v.push(97);
        v.push(112);
        v.push(115);
        proof {
            assert(v@ =~= key_maps());
        }
    }
    v
}

/// First position of `c` in `s[i..j)`, or `j` if none.
fn find_in(s: &Vec<u8>, i: usize, j: usize, c: u8) -> (k: usize)
    requires
        i <= j && j <= s@.len(),
    ensures
        i <= k <= j,
        forall|m: int| i <= m < k ==> s@[m] != c,
        k < j ==> s@[k as int] == c,
{
    let mut k = i;
    while k < j
        invariant
            i <= k <= j,
            j <= s@.len(),
            forall|m: int| i <= m < k ==> s@[m] != c,
        decreases j - k,
    {
        if s[k] == c {
            return k;
        }
        k += 1;
    }
    k
}

/// Reads the canonical decimal token `s[i..k)`.
fn parse_num(s: &Vec<u8>, i: usize, k: usize) -> (r: Result<u32, ParseError>)
    requires
        i < k && k <= s@.len(),
    ensures
        ({
            let tok = s@.subrange(i as int, k as int);
            match r {
                Ok(v) => canon_num(tok) && digits_val(tok) <= 0xffff_ffff && v as nat
                    == digits_val(tok),
                Err(_) => !(canon_num(tok) && digits_val(tok) <= 0xffff_ffff),
            }
        }),
{
    let ghost tok = s@.subrange(i as int, k as int);
    if s[i] == 48 && k - i > 1 {
        proof {
            assert(tok[0] == 48 && tok.len() > 1);
        }
        return Err(ParseError);
    }
    let mut acc: u64 = 0;
    let mut m: usize = i;
    while m < k
        invariant
            i <= m <= k,
            i < k && k <= s@.len(),
            tok == s@.subrange(i as int, k as int),
            s@[i as int] == 48 ==> k == i + 1,
            forall|q: int| i <= q < m ==> is_digit(s@[q]),
            acc <= 0xffff_ffff,
            acc as nat == digits_val(s@.subrange(i as int, m as int)),
        decreases k - m,
    {
        let b = s[m];
        if b < 48 || b > 57 {
            proof {
                assert(tok[m - i] == b);
                assert(!all_digits(tok));
            }
            return Err(ParseError);
        }
        proof {
            assert(s@.subrange(i as int, m as int + 1).drop_last() =~= s@.subrange(
                i as int,
                m as int,
            ));
            assert(s@.subrange(i as int, m as int + 1).last() == s@[m as int]);
        }
        acc = acc * 10 + ((b - 48) as u64);
        if acc > 0xffff_ffff {
            proof {
                if canon_num(tok) {
                    assert(tok.subrange(0, m as int + 1 - i) =~= s@.subrange(
                        i as int,
                        m as int + 1,
                    ));
                    lemma_digits_val_prefix_mono(tok, m as int + 1 - i);
                }
            }
            return Err(ParseError);
        }
        m += 1;
    }
    proof {
        assert(tok =~= s@.subrange(i as int, k as int));
        assert(forall|q: int| 0 <= q < tok.len() ==> is_digit(#[trigger] tok[q])) by {
            assert(forall|q: int| 0 <= q < tok.len() ==> tok[q] == s@[i + q]);
        }
        assert(tok[0] == s@[i as int]);
        assert(canon_num(tok));
    }
    Ok(acc as u32)
}

/// Reads the nonempty entry list `s[i..j)`.
fn parse_items(s: &Vec<u8>, i: usize, j: usize) -> (r: Result<Vec<u32>, ParseError>)
    requires
        i <= j && j <= s@.len(),
    ensures
        ({
            let w = s@.subrange(i as int, j as int);
            match r {
                Ok(v) => dec_items(w) == Some(v@),
                Err(_) => dec_items(w) == None::<Seq<u32>>,
            }
        }),
    decreases j - i,
{
    let ghost w = s@.subrange(i as int, j as int);
    let k = find_in(s, i, j, 44);
    proof {
        assert(forall|m: int| 0 <= m < k - i ==> w[m] == s@[i + m]);
        lemma_scan_to_at(w, 44, k as int - i);
    }
    if k == i {
        return Err(ParseError);
    }
    let ghost tok = w.subrange(0, k as int - i);
    proof {
        assert(tok =~= s@.subrange(i as int, k as int));
    }
    let v = match parse_num(s, i, k) {
        Err(_) => {
            return Err(ParseError);
        },
        Ok(v) => v,
    };
    if k == j {
        let mut out: Vec<u32> = Vec::new();
        out.push(v);
        proof {
            assert(out@ =~= seq![digits_val(tok) as u32]);
        }
        return Ok(out);
    }
    match parse_items(s, k + 1, j) {
        Err(_) => {
            proof {
                assert(w.subrange(k as int - i + 1, w.len() as int) =~= s@.subrange(
                    k as int + 1,
                    j as int,
                ));
            }
            Err(ParseError)
        },
        Ok(mut rest) => {
            proof {
                assert(w.subrange(k as int - i + 1, w.len() as int) =~= s@.subrange(
                    k as int + 1,
                    j as int,
                ));
            }
            let ghost r0 = rest@;
            rest.insert(0, v);
            proof {
                assert(rest@ =~= seq![digits_val(tok) as u32] + r0);
            }
            Ok(rest)
        },
    }
}

/// Reads one section line `s[i..j)` (without its newline).
fn parse_line(s: &Vec<u8>, i: usize, j: usize, sec: usize) -> (r: Result<Vec<u32>, ParseError>)
    requires
        i <= j && j <= s@.len(),
        sec < 4,
    ensures
        ({
            let line = s@.subrange(i as int, j as int);
            match r {
                Ok(v) => dec_line(line, section_key(sec as int)) == Some(v@),
                Err(_) => dec_line(line, section_key(sec as int)) == None::<Seq<u32>>,
            }
        }),
{
    let ghost line = s@.subrange(i as int, j as int);
    let key = key_bytes(sec);
    let kl = key.len();
    if j - i < kl + 1 {
        return Err(ParseError);
    }
    let mut m: usize = 0;
    while m < kl
        invariant
            m <= kl,
            kl == key@.len(),
            i + kl + 1 <= j,
            j <= s@.len(),
            key@ == section_key(sec as int),
            line == s@.subrange(i as int, j as int),
            forall|q: int| 0 <= q < m ==> line[q] == key@[q],
        decreases kl - m,
    {
        if s[i + m] != key[m] {
            proof {
                assert(line[m as int] == s@[i + m]);
                assert(line.subrange(0, kl as int)[m as int] != key@[m as int]);
            }
            return Err(ParseError);
        }
        proof {
            assert(line[m as int] == s@[i + m]);
        }
        m += 1;
    }
    proof {
        assert(line.subrange(0, kl as int) =~= key@);
    }
    if s[i + kl] != 58 {
        proof {
            assert(line[kl as int] == s@[i + kl]);
        }
        return Err(ParseError);
    }
    proof {
        assert(line[kl as int] == s@[i + kl]);
    }
    if i + kl + 1 == j {
        proof {
            assert(line.subrange(kl as int + 1, line.len() as int) =~= Seq::<u8>::empty());
        }
        return Ok(Vec::new());
    }
    proof {
        assert(line.subrange(kl as int + 1, line.len() as int) =~= s@.subrange(
            i as int + kl + 1,
            j as int,
        ));
    }
    match parse_items(s, i + kl + 1, j) {
        Ok(v) => Ok(v),
        Err(_) => Err(ParseError),
    }
}

/// Parses project content into a document.
///
/// Succeeds exactly on the strings the document decoder accepts, and the
/// parsed document is the one the decoder gives.
#[verifier::rlimit(100)]
pub fn parse(s: &Vec<u8>) -> (r: Result<Document, ParseError>)
    ensures
        match r {
            Ok(d) => dec_doc(s@) == Some(d@),
            Err(_) => dec_doc(s@) == None::<DocView>,
        },
{
    let n = s.len();
    let e0 = find_in(s, 0, n, 10);
    proof {
        lemma_scan_to_at(s@, 10, e0 as int);
    }
    if e0 == n {
        return Err(ParseError);
    }
    let sources = match parse_line(s, 0, e0, 0) {
        Ok(v) => v,
        Err(_) => {
            return Err(ParseError);
        },
    };
    let p1 = e0 + 1;
    let ghost r0 = s@.subrange(p1 as int, n as int);
    let e1 = find_in(s, p1, n, 10);
    proof {
        assert(forall|m: int| 0 <= m < e1 - p1 ==> r0[m] == s@[p1 + m]);
        lemma_scan_to_at(r0, 10, e1 as int - p1);
    }
    if e1 == n {
        return Err(ParseError);
    }
    proof {
        assert(r0.subrange(0, e1 as int - p1) =~= s@.subrange(p1 as int, e1 as int));
    }
    let metatiles = match parse_line(s, p1, e1, 1) {
        Ok(v) => v,
        Err(_) => {
            return Err(ParseError);
        },
    };
    let p2 = e1 + 1;
    let ghost r1 = r0.subrange(e1 as int - p1 + 1, r0.len() as int);
    proof {
        assert(r1 =~= s@.subrange(p2 as int, n as int));
    }
    let e2 = find_in(s, p2, n, 10);
    proof {
        assert(forall|m: int| 0 <= m < e2 - p2 ==> r1[m] == s@[p2 + m]);
        lemma_scan_to_at(r1, 10, e2 as int - p2);
    }
    if e2 == n {
        return Err(ParseError);
    }
    proof {
        assert(r1.subrange(0, e2 as int - p2) =~= s@.subrange(p2 as int, e2 as int));
    }
    let metatilesets = match parse_line(s, p2, e2, 2) {
        Ok(v) => v,
        Err(_) => {
            return Err(ParseError);
        },
    };
    let p3 = e2 + 1;
    let ghost r2 = r1.subrange(e2 as int - p2 + 1, r1.len() as int);
    proof {
        assert(r2 =~= s@.subrange(p3 as int, n as int));
    }
    let e3 = find_in(s, p3, n, 10);
    proof {
        assert(forall|m: int| 0 <= m < e3 - p3 ==> r2[m] == s@[p3 + m]);
        lemma_scan_to_at(r2, 10, e3 as int - p3);
    }
    if e3 == n {
        return Err(ParseError);
    }
    proof {
        assert(r2.subrange(0, e3 as int - p3) =~= s@.subrange(p3 as int, e3 as int));
    }
    let maps = match parse_line(s, p3, e3, 3) {
        Ok(v) => v,
        Err(_) => {
            return Err(ParseError);
        },
    };
    let p4 = e3 + 1;
    let ghost r3 = r2.subrange(e3 as int - p3 + 1, r2.len() as int);
    proof {
        assert(r3 =~= s@.subrange(p4 as int, n as int));
    }
    if p4 != n {
        proof {
            assert(r3.len() != 0);
        }
        return Err(ParseError);
    }
    let d = Document { sources, metatiles, metatilesets, maps };
    proof {
        assert(r3.len() == 0);
        assert(dec_doc(s@) == Some(d@));
    }
    Ok(d)
}

/// Appends the canonical decimal digits of `n`.
fn emit_num(out: &mut Vec<u8>, n: u32)
    ensures
        final(out)@ == old(out)@ + enc_num(n as nat),
    decreases n,
{
    if n < 10 {
        out.push((48 + n) as u8);
        proof {
            assert(final(out)@ =~= old(out)@ + enc_num(n as nat));
        }
    } else {
        emit_num(out, n / 10);
        out.push((48 + n % 10) as u8);
        proof {
            assert(final(out)@ =~= old(out)@ + enc_num(n as nat));
        }
    }
}

/// Appends the encoding of the entries `v[i..]`.
fn emit_items(out: &mut Vec<u8>, v: &Vec<u32>, i: usize)
    requires
        i <= v@.len(),
    ensures
        final(out)@ == old(out)@ + enc_items(v@.skip(i as int)),
    decreases v@.len() - i,
{
    if i == v.len() {
        proof {
            assert(v@.skip(i as int) =~= Seq::<u32>::empty());
            assert(final(out)@ =~= old(out)@ + enc_items(v@.skip(i as int)));
        }
        return ;
    }
    proof {
        assert(v@.skip(i as int)[0] == v@[i as int]);
    }
    emit_num(out, v[i]);
    if i + 1 < v.len() {
        out.push(44);
        emit_items(out, v, i + 1);
        proof {
            assert(v@.skip(i as int).skip(1) =~= v@.skip(i as int + 1));
            assert(final(out)@ =~= old(out)@ + enc_items(v@.skip(i as int)));
        }
    } else {
        proof {
            assert(v@.skip(i as int).len() == 1);
            assert(final(out)@ =~= old(out)@ + enc_items(v@.skip(i as int)));
        }
    }
}

/// Appends one section's name.
fn push_key(out: &mut Vec<u8>, sec: usize)
    requires
        sec < 4,
    ensures
        final(out)@ == old(out)@ + section_key(sec as int),
{
    let key = key_bytes(sec);
    let mut m: usize = 0;
    while m < key.len()
        invariant
            m <= key@.len(),
            key@ == section_key(sec as int),
            out@ == old(out)@ + key@.subrange(0, m as int),
        decreases key@.len() - m,
    {
        out.push(key[m]);
        proof {
            assert(key@.subrange(0, m as int).push(key@[m as int]) =~= key@.subrange(
                0,
                m as int + 1,
            ));
        }
        m += 1;
    }
    proof {
        assert(key@.subrange(0, key@.len() as int) =~= key@);
    }
}

/// Appends one full section line.
fn emit_line(out: &mut Vec<u8>, sec: usize, v: &Vec<u32>)
    requires
        sec < 4,
    ensures
        final(out)@ == old(out)@ + enc_line(section_key(sec as int), v@),
{
    push_key(out, sec);
    out.push(58);
    emit_items(out, v, 0);
    out.push(10);
    proof {
        assert(v@.skip(0) =~= v@);
        assert(final(out)@ =~= old(out)@ + enc_line(section_key(sec as int), v@));
    }
}

/// Writes a document in its canonical text form.
pub fn serialize(d: &Document) -> (out: Vec<u8>)
    ensures
        out@ == enc_doc(d@),
{
    let mut out: Vec<u8> = Vec::new();
    emit_line(&mut out, 0, &d.sources);
    emit_line(&mut out, 1, &d.metatiles);
    emit_line(&mut out, 2, &d.metatilesets);
    emit_line(&mut out, 3, &d.maps);
    proof {
        assert(out@ =~= enc_doc(d@));
    }
    out
}

} // verus!

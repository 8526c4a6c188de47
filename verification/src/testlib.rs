//! The full testlib verdict parser used when a checker also rewrites its
//! message: the same grammar as [`crate::checker`], but the verdict maps
//! into the wider progress vocabulary, the message is re-tagged (`ac`,
//! `wa`, `fail`, `pe`, `pc`) with surrounding whitespace trimmed, and a
//! `FAIL` report may count as a wrong answer instead of a system error.

use vstd::prelude::*;
use vstd::string::StringSliceAdditionalSpecFns;
use vstd::utf8::valid_utf8;

use crate::checker::{spec_after_paren, spec_decimal_token, spec_pc_rest};
use crate::encoding::{
    limit_message, lit_bytes, spec_limit, spec_sanitize, utf8_sanitize, MESSAGE_LIMIT,
};
use crate::score::{parse_score, spec_parse_score, SCORE_UNIT};
use crate::status::Status;
use crate::text::{
    append_bytes, copy_range, count_blank, count_digits, count_word, lines, spec_count_blank,
    spec_count_word, spec_lines, spec_trim, starts_with, starts_with_at, trim,
};

verus! {

/// True when every byte of `b` is ASCII.
pub open spec fn all_ascii(b: Seq<u8>) -> bool {
    forall|i: int| 0 <= i < b.len() ==> b[i] < 0x80
}

/// The tagged message of a recognised report: the tag, then the rest of the
/// output with surrounding ASCII whitespace removed, limited in size.
pub open spec fn spec_tagged(tag: Seq<u8>, rest: Seq<u8>) -> Seq<u8> {
    spec_limit(tag + spec_trim(rest))
}

/// What remains of the `partially correct` / `points` text once the decimal
/// token and an optional closing parenthesis are consumed.
pub open spec fn spec_pc_tail(rest: Seq<u8>) -> Seq<u8> {
    let ap = spec_after_paren(rest);
    let tok = spec_decimal_token(ap);
    if 0 <= tok.len() <= ap.len() {
        let rem = ap.skip(tok.len() as int);
        if rem.len() > 0 && rem[0] == 0x29 {
            rem.drop_first()
        } else {
            rem
        }
    } else {
        ap
    }
}

/// Base verdict and tagged message of the repaired output `t`.
pub open spec fn spec_testlib_base(t: Seq<u8>, fail_as_wa: bool) -> (Status, int, Seq<u8>) {
    if "ok".spec_bytes().is_prefix_of(t) {
        (
            Status::Accepted,
            SCORE_UNIT as int,
            spec_tagged("ac ".spec_bytes(), t.skip("ok".spec_bytes().len() as int)),
        )
    } else if "wrong answer".spec_bytes().is_prefix_of(t) {
        (
            Status::WrongAnswer,
            0,
            spec_tagged("wa ".spec_bytes(), t.skip("wrong answer".spec_bytes().len() as int)),
        )
    } else if "FAIL".spec_bytes().is_prefix_of(t) {
        (
            if fail_as_wa {
                Status::WrongAnswer
            } else {
                Status::SystemError
            },
            0,
            spec_tagged("fail ".spec_bytes(), t.skip("FAIL".spec_bytes().len() as int)),
        )
    } else if "wrong output format".spec_bytes().is_prefix_of(t) {
        (
            Status::PresentationError,
            0,
            spec_tagged(
                "pe ".spec_bytes(),
                t.skip("wrong output format".spec_bytes().len() as int),
            ),
        )
    } else {
        match spec_pc_rest(t) {
            Some(rest) => spec_pc_branch(t, rest),
            None => (Status::SystemError, 0, spec_limit(t)),
        }
    }
}

/// The `partially correct` / `points` rule on the text after the prefix.
pub open spec fn spec_pc_branch(t: Seq<u8>, rest: Seq<u8>) -> (Status, int, Seq<u8>) {
    let tok = spec_decimal_token(spec_after_paren(rest));
    match spec_parse_score(tok) {
        Some(v) => if v >= SCORE_UNIT as int {
            (Status::Accepted, SCORE_UNIT as int, spec_tagged("ac ".spec_bytes(), spec_pc_tail(rest)))
        } else if v <= 0 {
            (Status::WrongAnswer, 0, spec_tagged("wa ".spec_bytes(), spec_pc_tail(rest)))
        } else {
            (Status::PartiallyCorrect, v, spec_tagged("pc ".spec_bytes(), spec_pc_tail(rest)))
        },
        None => (Status::SystemError, 0, spec_limit(t)),
    }
}

/// The override a line carries, with the plain-word token this grammar
/// uses: `Some((true, tok))` for `status(tok)`, `Some((false, tok))` for
/// `score(tok)`.
pub open spec fn spec_tl_line_override(l: Seq<u8>) -> Option<(bool, Seq<u8>)> {
    let b = spec_count_blank(l);
    if 0 <= b <= l.len() {
        let r = l.skip(b);
        if "status(".spec_bytes().is_prefix_of(r) {
            match spec_tl_paren_token(r.skip("status(".spec_bytes().len() as int)) {
                Some(tok) => Some((true, tok)),
                None => None,
            }
        } else if "score(".spec_bytes().is_prefix_of(r) {
            match spec_tl_paren_token(r.skip("score(".spec_bytes().len() as int)) {
                Some(tok) => Some((false, tok)),
                None => None,
            }
        } else {
            None
        }
    } else {
        None
    }
}

/// The longest leading word span of `x`, when it is non-empty and a closing
/// parenthesis follows it.
pub open spec fn spec_tl_paren_token(x: Seq<u8>) -> Option<Seq<u8>> {
    let w = spec_count_word(x);
    if 0 < w < x.len() && x[w] == 0x29 {
        Some(x.subrange(0, w))
    } else {
        None
    }
}

/// One line applied to the running verdict.
pub open spec fn spec_tl_apply_line(l: Seq<u8>, st: Status, sc: int) -> (Status, int) {
    match spec_tl_line_override(l) {
        Some(ov) => if ov.0 {
            match Status::spec_parse_name(ov.1) {
                Some(s2) => (s2, sc),
                None => (st, sc),
            }
        } else {
            match spec_parse_score(ov.1) {
                Some(v) => (st, v),
                None => (st, sc),
            }
        },
        None => (st, sc),
    }
}

/// All lines applied in order: later overrides win.
pub open spec fn spec_tl_apply_lines(ls: Seq<Seq<u8>>, st: Status, sc: int) -> (Status, int)
    decreases ls.len(),
{
    if ls.len() == 0 {
        (st, sc)
    } else {
        let r1 = spec_tl_apply_line(ls[0], st, sc);
        spec_tl_apply_lines(ls.drop_first(), r1.0, r1.1)
    }
}

/// The complete testlib parse of raw output `s`.
pub open spec fn spec_parse_testlib(s: Seq<u8>, fail_as_wa: bool) -> (Status, int, Seq<u8>) {
    let t = spec_sanitize(s);
    let base = spec_testlib_base(t, fail_as_wa);
    let fin = spec_tl_apply_lines(spec_lines(t), base.0, base.1);
    (fin.0, fin.1, base.2)
}

proof fn lemma_tl_apply_lines_snoc(ls: Seq<Seq<u8>>, x: Seq<u8>, st: Status, sc: int)
    ensures
        spec_tl_apply_lines(ls.push(x), st, sc) == ({
            let r = spec_tl_apply_lines(ls, st, sc);
            spec_tl_apply_line(x, r.0, r.1)
        }),
    decreases ls.len(),
{
    if ls.len() == 0 {
        assert(ls.push(x)[0] == x);
        let r1 = spec_tl_apply_line(x, st, sc);
        assert(ls.push(x).drop_first() =~= Seq::<Seq<u8>>::empty());
        assert(spec_tl_apply_lines(ls.push(x), st, sc) == spec_tl_apply_lines(
            ls.push(x).drop_first(),
            r1.0,
            r1.1,
        ));
    } else {
        let r1 = spec_tl_apply_line(ls[0], st, sc);
        assert(ls.push(x)[0] == ls[0]);
        assert(ls.push(x).drop_first() =~= ls.drop_first().push(x));
        assert(spec_tl_apply_lines(ls.push(x), st, sc) == spec_tl_apply_lines(
            ls.drop_first().push(x),
            r1.0,
            r1.1,
        ));
        lemma_tl_apply_lines_snoc(ls.drop_first(), x, r1.0, r1.1);
    }
}

proof fn lemma_lit_all_ascii()
    ensures
        all_ascii("ok".spec_bytes()),
        all_ascii("wrong answer".spec_bytes()),
        all_ascii("FAIL".spec_bytes()),
        all_ascii("wrong output format".spec_bytes()),
        all_ascii("partially correct ".spec_bytes()),
        all_ascii("points ".spec_bytes()),
{
    reveal_strlit("ok");
    reveal_strlit("wrong answer");
    reveal_strlit("FAIL");
    reveal_strlit("wrong output format");
    reveal_strlit("partially correct ");
    reveal_strlit("points ");
    assert(vstd::utf8::is_ascii_chars("ok"@));
    assert(vstd::utf8::is_ascii_chars("wrong answer"@));
    assert(vstd::utf8::is_ascii_chars("FAIL"@));
    assert(vstd::utf8::is_ascii_chars("wrong output format"@));
    assert(vstd::utf8::is_ascii_chars("partially correct "@));
    assert(vstd::utf8::is_ascii_chars("points "@));
    lemma_one_lit_ascii("ok");
    lemma_one_lit_ascii("wrong answer");
    lemma_one_lit_ascii("FAIL");
    lemma_one_lit_ascii("wrong output format");
    lemma_one_lit_ascii("partially correct ");
    lemma_one_lit_ascii("points ");
}

proof fn lemma_one_lit_ascii(s: &str)
    requires
        vstd::utf8::is_ascii_chars(s@),
    ensures
        all_ascii(s.spec_bytes()),
{
    vstd::utf8::is_ascii_chars_encode_utf8(s@);
    assert forall|i: int| 0 <= i < s.spec_bytes().len() implies s.spec_bytes()[i] < 0x80 by {
        assert(s.spec_bytes()[i] == s@[i] as u8);
        assert(s@[i] <= '\u{7f}');
        vstd::utf8::char_u32_cast(s@[i], s@[i] as u32);
    }
}

/// Builds the tagged message `tag` + trimmed `rest`, limited in size, when
/// `rest` is a tail of valid UTF-8 split off after ASCII bytes.
fn tagged_message(tag: &str, s: &[u8], from: usize) -> (r: Vec<u8>)
    requires
        valid_utf8(s@),
        from <= s@.len(),
        forall|i: int| 0 <= i < from ==> s@[i] < 0x80,
    ensures
        r@ == spec_tagged(tag.spec_bytes(), s@.skip(from as int)),
        valid_utf8(r@),
        r@.len() <= MESSAGE_LIMIT,
{
    proof {
        crate::encoding::lemma_ascii_prefix_split(s@, from as int);
    }
    let rest = copy_range(s, from, s.len());
    let tr = trim(rest.as_slice());
    let mut m = lit_bytes(tag);
    append_bytes(&mut m, tr.as_slice());
    proof {
        crate::encoding::lemma_trim_valid(rest@);
        vstd::utf8::valid_utf8_concat(tag.spec_bytes(), tr@);
        crate::encoding::lemma_limit_valid(m@);
        crate::encoding::lemma_limit_len(m@);
        assert(rest@ =~= s@.skip(from as int));
    }
    limit_message(m.as_slice())
}

/// Parses testlib-style output into the wider status vocabulary, with the
/// message re-tagged by the base verdict.  When `fail_as_wa` is set a
/// `FAIL` report counts as a wrong answer, as the interactor role needs.
/// Total: every byte string yields a verdict with a score in `[0, 1]` and a
/// bounded, valid-UTF-8 message.
pub fn parse_output(output: &[u8], fail_as_wa: bool) -> (r: (Status, u64, Vec<u8>))
    ensures
        r.0 == spec_parse_testlib(output@, fail_as_wa).0,
        r.1 as int == spec_parse_testlib(output@, fail_as_wa).1,
        r.2@ == spec_parse_testlib(output@, fail_as_wa).2,
        r.1 <= SCORE_UNIT,
        valid_utf8(r.2@),
        r.2@.len() <= MESSAGE_LIMIT,
{
    let t = utf8_sanitize(output);
    let s = t.as_slice();
    let base = testlib_base(s, fail_as_wa);
    let mut st = base.0;
    let mut sc = base.1;
    let ls = lines(s);
    let ghost lseq = spec_lines(t@);
    let n = ls.len();
    let mut i: usize = 0;
    proof {
        assert(lseq.take(0) =~= Seq::<Seq<u8>>::empty());
    }
    while i < n
        invariant
            0 <= i <= n == ls@.len(),
            ls.deep_view() == lseq,
            sc <= SCORE_UNIT,
            (st, sc as int) == spec_tl_apply_lines(
                lseq.take(i as int),
                spec_testlib_base(t@, fail_as_wa).0,
                spec_testlib_base(t@, fail_as_wa).1,
            ),
        decreases n - i,
    {
        let stepped = tl_apply_line(ls[i].as_slice(), st, sc);
        st = stepped.0;
        sc = stepped.1;
        proof {
            assert(lseq[i as int] == ls@[i as int].deep_view());
            assert(lseq[i as int] =~= ls@[i as int]@);
            assert(lseq.take(i + 1 as int) =~= lseq.take(i as int).push(lseq[i as int]));
            lemma_tl_apply_lines_snoc(
                lseq.take(i as int),
                lseq[i as int],
                spec_testlib_base(t@, fail_as_wa).0,
                spec_testlib_base(t@, fail_as_wa).1,
            );
        }
        i += 1;
    }
    proof {
        assert(lseq.take(n as int) =~= lseq);
    }
    (st, sc, base.2)
}

/// Computes the base verdict and tagged message.
fn testlib_base(s: &[u8], fail_as_wa: bool) -> (r: (Status, u64, Vec<u8>))
    requires
        valid_utf8(s@),
    ensures
        r.0 == spec_testlib_base(s@, fail_as_wa).0,
        r.1 as int == spec_testlib_base(s@, fail_as_wa).1,
        r.2@ == spec_testlib_base(s@, fail_as_wa).2,
        r.1 <= SCORE_UNIT,
        valid_utf8(r.2@),
        r.2@.len() <= MESSAGE_LIMIT,
{
    proof {
        lemma_lit_all_ascii();
        crate::encoding::lemma_limit_valid(s@);
        crate::encoding::lemma_limit_len(s@);
    }
    if starts_with(s, "ok".as_bytes()) {
        let plen = "ok".as_bytes().len();
        proof {
            lemma_prefix_bytes_ascii(s@, "ok".spec_bytes());
        }
        let m = tagged_message("ac ", s, plen);
        return (Status::Accepted, SCORE_UNIT, m);
    }
    if starts_with(s, "wrong answer".as_bytes()) {
        let plen = "wrong answer".as_bytes().len();
        proof {
            lemma_prefix_bytes_ascii(s@, "wrong answer".spec_bytes());
        }
        let m = tagged_message("wa ", s, plen);
        return (Status::WrongAnswer, 0, m);
    }
    if starts_with(s, "FAIL".as_bytes()) {
        let plen = "FAIL".as_bytes().len();
        proof {
            lemma_prefix_bytes_ascii(s@, "FAIL".spec_bytes());
        }
        let m = tagged_message("fail ", s, plen);
        let st = if fail_as_wa {
            Status::WrongAnswer
        } else {
            Status::SystemError
        };
        return (st, 0, m);
    }
    if starts_with(s, "wrong output format".as_bytes()) {
        let plen = "wrong output format".as_bytes().len();
        proof {
            lemma_prefix_bytes_ascii(s@, "wrong output format".spec_bytes());
        }
        let m = tagged_message("pe ", s, plen);
        return (Status::PresentationError, 0, m);
    }
    let plen: usize;
    if starts_with(s, "partially correct ".as_bytes()) {
        plen = "partially correct ".as_bytes().len();
        proof {
            lemma_prefix_bytes_ascii(s@, "partially correct ".spec_bytes());
        }
    } else if starts_with(s, "points ".as_bytes()) {
        plen = "points ".as_bytes().len();
        proof {
            lemma_prefix_bytes_ascii(s@, "points ".spec_bytes());
        }
    } else {
        return (Status::SystemError, 0, limit_message(s));
    }
    testlib_points(s, plen)
}

/// Reads the decimal of a `partially correct` / `points` report and builds
/// its verdict and message.
#[verifier::rlimit(100)]
#[verifier::spinoff_prover]
fn testlib_points(s: &[u8], plen: usize) -> (r: (Status, u64, Vec<u8>))
    requires
        valid_utf8(s@),
        plen <= s@.len(),
        forall|i: int| 0 <= i < plen ==> s@[i] < 0x80,
        spec_pc_rest(s@) == Some(s@.skip(plen as int)),
    ensures
        ({
            let v = spec_pc_branch(s@, s@.skip(plen as int));
            r.0 == v.0 && r.1 as int == v.1 && r.2@ == v.2
        }),
        r.1 <= SCORE_UNIT,
        valid_utf8(r.2@),
        r.2@.len() <= MESSAGE_LIMIT,
{
    proof {
        crate::encoding::lemma_limit_valid(s@);
        crate::encoding::lemma_limit_len(s@);
    }
    let ghost rest = s@.skip(plen as int);
    let mut pos = plen;
    if pos < s.len() && s[pos] == 0x28 {
        pos += 1;
    }
    let ghost ap = spec_after_paren(rest);
    proof {
        assert(ap =~= s@.skip(pos as int));
    }
    let d1 = count_digits(s, pos);
    proof {
        assert(s@.subrange(pos as int, s@.len() as int) =~= ap);
    }
    let tok_end: usize;
    if pos + d1 < s.len() && s[pos + d1] == 0x2e {
        let d2 = count_digits(s, pos + d1 + 1);
        proof {
            assert(s@.subrange(pos + d1 + 1 as int, s@.len() as int) =~= ap.skip(d1 + 1));
        }
        tok_end = pos + d1 + 1 + d2;
    } else {
        tok_end = pos + d1;
    }
    let tok = copy_range(s, pos, tok_end);
    proof {
        assert(tok@ =~= spec_decimal_token(ap));
    }
    match parse_score(tok.as_slice()) {
        Some(v) => {
            // the bytes up to and including an optional closing parenthesis
            // are all ASCII, so the tail stays valid UTF-8
            let mut tail = tok_end;
            if tail < s.len() && s[tail] == 0x29 {
                tail += 1;
            }
            proof {
                assert forall|i: int| pos <= i < tok_end implies #[trigger] s@[i] < 0x80 by {
                    assert(tok@[i - pos] == s@[i]);
                    assert(crate::text::spec_is_digit(tok@[i - pos]) || tok@[i - pos] == 0x2e);
                }
                assert forall|i: int| 0 <= i < tail implies #[trigger] s@[i] < 0x80 by {
                    if i < plen {
                    } else if i < pos {
                        assert(s@[i] == 0x28);
                    } else if i < tok_end {
                    } else {
                        assert(s@[i] == 0x29);
                    }
                }
                let tk = spec_decimal_token(ap);
                assert(tk == tok@);
                assert(ap.skip(tk.len() as int) =~= s@.skip(tok_end as int));
                assert(s@.skip(tail as int) =~= spec_pc_tail(rest));
            }
            let m = if v >= SCORE_UNIT {
                tagged_message("ac ", s, tail)
            } else if v == 0 {
                tagged_message("wa ", s, tail)
            } else {
                tagged_message("pc ", s, tail)
            };
            if v >= SCORE_UNIT {
                (Status::Accepted, SCORE_UNIT, m)
            } else if v == 0 {
                (Status::WrongAnswer, 0, m)
            } else {
                (Status::PartiallyCorrect, v, m)
            }
        },
        None => (Status::SystemError, 0, limit_message(s)),
    }
}

proof fn lemma_prefix_bytes_ascii(s: Seq<u8>, p: Seq<u8>)
    requires
        p.is_prefix_of(s),
        all_ascii(p),
    ensures
        forall|i: int| 0 <= i < p.len() ==> s[i] < 0x80,
{
    assert forall|i: int| 0 <= i < p.len() implies s[i] < 0x80 by {
        assert(s[i] == p[i]);
    }
}

/// Applies one line's override, if it has one.
fn tl_apply_line(l: &[u8], st: Status, sc: u64) -> (r: (Status, u64))
    requires
        sc <= SCORE_UNIT,
    ensures
        r.0 == spec_tl_apply_line(l@, st, sc as int).0,
        r.1 as int == spec_tl_apply_line(l@, st, sc as int).1,
        r.1 <= SCORE_UNIT,
{
    let n = l.len();
    let b = count_blank(l, 0);
    proof {
        assert(l@.subrange(0, l@.len() as int) =~= l@);
        assert(spec_count_blank(l@) == b);
    }
    let ghost rsk = l@.skip(b as int);
    let key: bool;
    let klen: usize;
    if starts_with_at(l, "status(".as_bytes(), b) {
        key = true;
        klen = "status(".as_bytes().len();
    } else if starts_with_at(l, "score(".as_bytes(), b) {
        key = false;
        klen = "score(".as_bytes().len();
    } else {
        return (st, sc);
    }
    proof {
        assert(b + klen <= n) by {
            if key {
                assert("status(".spec_bytes().is_prefix_of(rsk));
                assert(klen <= rsk.len());
            } else {
                assert("score(".spec_bytes().is_prefix_of(rsk));
                assert(klen <= rsk.len());
            }
        }
    }
    let start = b + klen;
    let ghost x = rsk.skip(klen as int);
    let w = count_word(l, start);
    proof {
        assert(x =~= l@.subrange(start as int, l@.len() as int));
        assert(spec_count_word(x) == w);
    }
    if w == 0 || start + w >= l.len() || l[start + w] != 0x29 {
        proof {
            if start + w < l@.len() {
                assert(x[w as int] == l@[start + w]);
            }
            assert(spec_tl_paren_token(x) is None);
        }
        return (st, sc);
    }
    let tok = copy_range(l, start, start + w);
    proof {
        assert(x[w as int] == l@[start + w]);
        assert(spec_tl_paren_token(x) == Some(tok@)) by {
            assert(tok@ =~= x.subrange(0, w as int));
        }
    }
    if key {
        match Status::parse_name(tok.as_slice()) {
            Some(s2) => (s2, sc),
            None => (st, sc),
        }
    } else {
        match parse_score(tok.as_slice()) {
            Some(v) => (st, v),
            None => (st, sc),
        }
    }
}

} // verus!

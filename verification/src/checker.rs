//! The checker-output grammar: a total parser from a checker's raw standard
//! error to a typed verdict, a fractional score and a bounded message.
//!
//! The grammar follows the testlib convention.  The first matching prefix
//! decides a base verdict, in this order:
//!
//! - `ok` is accepted with full score,
//! - `wrong answer` is wrong with zero score,
//! - `FAIL` is a system error,
//! - `wrong output format` is a presentation error,
//! - `partially correct ` or `points ` followed by an optionally
//!   parenthesised decimal reads that decimal: one or more is accepted, zero
//!   is wrong, anything between is partially correct with that score,
//! - anything else is a system error.
//!
//! Afterwards every line of the form `status(name)` or `score(x)` (leading
//! blanks allowed, anything after the closing parenthesis ignored)
//! overrides the status or the score; later lines win; unknown names and
//! malformed numbers are ignored.  The raw output, repaired to valid UTF-8
//! and limited in size, becomes the message.

use vstd::prelude::*;
use vstd::string::StringSliceAdditionalSpecFns;
use vstd::utf8::valid_utf8;

use crate::encoding::{
    limit_message, lit_bytes, spec_limit, spec_sanitize, utf8_sanitize, MESSAGE_LIMIT,
};
use crate::score::{parse_score, spec_parse_score, SCORE_UNIT};
use crate::text::{
    copy_range, count_blank, count_digits, count_word_dot, eq_bytes, lines, spec_count_blank,
    spec_count_digits, spec_count_word_dot, spec_lines, starts_with, starts_with_at,
};

verus! {

/// Verdict of a checker on one test.
#[derive(Clone, Copy, Debug, PartialEq, Eq, Structural)]
pub enum Status {
    Accepted,
    WrongAnswer,
    PartiallyCorrect,
    PresentationError,
    SystemError,
}

impl Status {
    /// The snake-case name of this status, used by `status(...)` overrides.
    pub open spec fn spec_name(self) -> Seq<u8> {
        match self {
            Status::Accepted => "accepted".spec_bytes(),
            Status::WrongAnswer => "wrong_answer".spec_bytes(),
            Status::PartiallyCorrect => "partially_correct".spec_bytes(),
            Status::PresentationError => "presentation_error".spec_bytes(),
            Status::SystemError => "system_error".spec_bytes(),
        }
    }

    /// The status a `status(...)` override names, if the name is known.
    pub open spec fn spec_parse_name(tok: Seq<u8>) -> Option<Status> {
        if tok == Status::Accepted.spec_name() {
            Some(Status::Accepted)
        } else if tok == Status::WrongAnswer.spec_name() {
            Some(Status::WrongAnswer)
        } else if tok == Status::PartiallyCorrect.spec_name() {
            Some(Status::PartiallyCorrect)
        } else if tok == Status::PresentationError.spec_name() {
            Some(Status::PresentationError)
        } else if tok == Status::SystemError.spec_name() {
            Some(Status::SystemError)
        } else {
            None
        }
    }

    /// Reads a status name.
    pub fn parse_name(tok: &[u8]) -> (r: Option<Status>)
        ensures
            r == Status::spec_parse_name(tok@),
    {
        if eq_bytes(tok, "accepted".as_bytes()) {
            Some(Status::Accepted)
        } else if eq_bytes(tok, "wrong_answer".as_bytes()) {
            Some(Status::WrongAnswer)
        } else if eq_bytes(tok, "partially_correct".as_bytes()) {
            Some(Status::PartiallyCorrect)
        } else if eq_bytes(tok, "presentation_error".as_bytes()) {
            Some(Status::PresentationError)
        } else if eq_bytes(tok, "system_error".as_bytes()) {
            Some(Status::SystemError)
        } else {
            None
        }
    }
}

/// The text the `partially correct` / `points` rule reads its decimal from,
/// when one of the two prefixes is present.
pub open spec fn spec_pc_rest(t: Seq<u8>) -> Option<Seq<u8>> {
    if "partially correct ".spec_bytes().is_prefix_of(t) {
        Some(t.skip("partially correct ".spec_bytes().len() as int))
    } else if "points ".spec_bytes().is_prefix_of(t) {
        Some(t.skip("points ".spec_bytes().len() as int))
    } else {
        None
    }
}

/// Drops one leading opening parenthesis, if present.
pub open spec fn spec_after_paren(r: Seq<u8>) -> Seq<u8> {
    if r.len() > 0 && r[0] == 0x28 {
        r.drop_first()
    } else {
        r
    }
}

/// The longest leading `digits [. digits]` span of `r`.
pub open spec fn spec_decimal_token(r: Seq<u8>) -> Seq<u8> {
    let d1 = spec_count_digits(r);
    if 0 <= d1 < r.len() && r[d1] == 0x2e {
        let d2 = spec_count_digits(r.skip(d1 + 1));
        if 0 <= d2 && d1 + 1 + d2 <= r.len() {
            r.subrange(0, d1 + 1 + d2)
        } else {
            r.subrange(0, d1)
        }
    } else if 0 <= d1 <= r.len() {
        r.subrange(0, d1)
    } else {
        Seq::empty()
    }
}

/// The base verdict of the repaired output `t`: status and score in
/// millionths, before any overrides.
pub open spec fn spec_base_verdict(t: Seq<u8>) -> (Status, int) {
    if "ok".spec_bytes().is_prefix_of(t) {
        (Status::Accepted, SCORE_UNIT as int)
    } else if "wrong answer".spec_bytes().is_prefix_of(t) {
        (Status::WrongAnswer, 0)
    } else if "FAIL".spec_bytes().is_prefix_of(t) {
        (Status::SystemError, 0)
    } else if "wrong output format".spec_bytes().is_prefix_of(t) {
        (Status::PresentationError, 0)
    } else {
        match spec_pc_rest(t) {
            Some(rest) => {
                let tok = spec_decimal_token(spec_after_paren(rest));
                match spec_parse_score(tok) {
                    Some(v) => if v >= SCORE_UNIT as int {
                        (Status::Accepted, SCORE_UNIT as int)
                    } else if v <= 0 {
                        (Status::WrongAnswer, 0)
                    } else {
                        (Status::PartiallyCorrect, v)
                    },
                    None => (Status::SystemError, 0),
                }
            },
            None => (Status::SystemError, 0),
        }
    }
}

/// The override a line carries: `Some((true, tok))` for `status(tok)`,
/// `Some((false, tok))` for `score(tok)`, `None` for any other line.
pub open spec fn spec_line_override(l: Seq<u8>) -> Option<(bool, Seq<u8>)> {
    let b = spec_count_blank(l);
    if 0 <= b <= l.len() {
        let r = l.skip(b);
        if "status(".spec_bytes().is_prefix_of(r) {
            match spec_paren_token(r.skip("status(".spec_bytes().len() as int)) {
                Some(tok) => Some((true, tok)),
                None => None,
            }
        } else if "score(".spec_bytes().is_prefix_of(r) {
            match spec_paren_token(r.skip("score(".spec_bytes().len() as int)) {
                Some(tok) => Some((false, tok)),
                None => None,
            }
        } else {
            None
        }
    } else {
        None
    }
}

/// The longest leading word-or-dot span of `x`, when it is non-empty and a
/// closing parenthesis follows it.
pub open spec fn spec_paren_token(x: Seq<u8>) -> Option<Seq<u8>> {
    let w = spec_count_word_dot(x);
    if 0 < w < x.len() && x[w] == 0x29 {
        Some(x.subrange(0, w))
    } else {
        None
    }
}

/// One line applied to the running result: a known `status(...)` replaces
/// the status, a well-formed `score(...)` replaces the score.
pub open spec fn spec_apply_line(l: Seq<u8>, st: Status, sc: int) -> (Status, int) {
    match spec_line_override(l) {
        Some(ov) => if ov.0 {
            match Status::spec_parse_name(ov.1) {
                Some(s2) => (s2, sc),
                None => (st, sc),
            }
        } else {
            match spec_parse_score(ov.1) {
                Some(v) => (st, v),
                None => (st, sc),
            }
        },
        None => (st, sc),
    }
}

/// All lines applied in order: later overrides win.
pub open spec fn spec_apply_lines(ls: Seq<Seq<u8>>, st: Status, sc: int) -> (Status, int)
    decreases ls.len(),
{
    if ls.len() == 0 {
        (st, sc)
    } else {
        let r1 = spec_apply_line(ls[0], st, sc);
        spec_apply_lines(ls.drop_first(), r1.0, r1.1)
    }
}

/// The complete parse of raw checker output `s`: repaired text, base
/// verdict, overrides, limited message.
pub open spec fn spec_parse_output(s: Seq<u8>) -> (Status, int, Seq<u8>) {
    let t = spec_sanitize(s);
    let base = spec_base_verdict(t);
    let fin = spec_apply_lines(spec_lines(t), base.0, base.1);
    (fin.0, fin.1, spec_limit(t))
}

/// A parsed checker verdict.
#[derive(Clone, Debug)]
pub struct Output {
    /// The checker's verdict.
    pub status: Status,
    /// Fractional score in millionths; [`SCORE_UNIT`] is full score.
    pub score: u64,
    /// The checker's raw output as a bounded, valid-UTF-8 message.
    pub message: Vec<u8>,
}

impl Output {
    /// A well-formed verdict has a score within `[0, 1]` and a bounded,
    /// valid-UTF-8 message.
    pub open spec fn wf(self) -> bool {
        &&& self.score <= SCORE_UNIT
        &&& valid_utf8(self.message@)
        &&& self.message@.len() <= MESSAGE_LIMIT
    }

    /// Parses raw checker output.  Total: every byte string yields a
    /// well-formed verdict.
    pub fn parse(output: &[u8]) -> (r: Output)
        ensures
            r.status == spec_parse_output(output@).0,
            r.score as int == spec_parse_output(output@).1,
            r.message@ == spec_parse_output(output@).2,
            r.wf(),
    {
        let t = utf8_sanitize(output);
        let s = t.as_slice();
        let base = base_verdict(s);
        let mut st = base.0;
        let mut sc = base.1;
        let ls = lines(s);
        let ghost lseq = spec_lines(t@);
        let n = ls.len();
        let mut i: usize = 0;
        proof {
            assert(lseq.take(0) =~= Seq::<Seq<u8>>::empty());
        }
        while i < n
            invariant
                0 <= i <= n == ls@.len(),
                ls.deep_view() == lseq,
                sc <= SCORE_UNIT,
                (st, sc as int) == spec_apply_lines(lseq.take(i as int), base.0, base.1 as int),
            decreases n - i,
        {
            let ghost prev_st = st;
            let ghost prev_sc = sc;
            let stepped = apply_line(ls[i].as_slice(), st, sc);
            st = stepped.0;
            sc = stepped.1;
            proof {
                assert(lseq[i as int] == ls@[i as int].deep_view());
                assert(lseq[i as int] =~= ls@[i as int]@);
                assert(lseq.take(i + 1 as int) =~= lseq.take(i as int).push(lseq[i as int]));
                lemma_apply_lines_snoc(lseq.take(i as int), lseq[i as int], base.0, base.1 as int);
            }
            i += 1;
        }
        proof {
            assert(lseq.take(n as int) =~= lseq);
        }
        let message = limit_message(s);
        Output { status: st, score: sc, message }
    }
}

proof fn lemma_apply_lines_snoc(ls: Seq<Seq<u8>>, x: Seq<u8>, st: Status, sc: int)
    ensures
        spec_apply_lines(ls.push(x), st, sc) == ({
            let r = spec_apply_lines(ls, st, sc);
            spec_apply_line(x, r.0, r.1)
        }),
    decreases ls.len(),
{
    if ls.len() == 0 {
        assert(ls.push(x)[0] == x);
        assert(ls.push(x).len() == 1);
        let r1 = spec_apply_line(x, st, sc);
        assert(ls.push(x).drop_first() =~= Seq::<Seq<u8>>::empty());
        assert(spec_apply_lines(ls.push(x), st, sc) == spec_apply_lines(
            ls.push(x).drop_first(),
            r1.0,
            r1.1,
        ));
        assert(spec_apply_lines(Seq::<Seq<u8>>::empty(), r1.0, r1.1) == r1);
        assert(spec_apply_lines(ls, st, sc) == (st, sc));
    } else {
        let r1 = spec_apply_line(ls[0], st, sc);
        assert(ls.push(x)[0] == ls[0]);
        assert(ls.push(x).drop_first() =~= ls.drop_first().push(x));
        assert(spec_apply_lines(ls.push(x), st, sc) == spec_apply_lines(
            ls.drop_first().push(x),
            r1.0,
            r1.1,
        ));
        lemma_apply_lines_snoc(ls.drop_first(), x, r1.0, r1.1);
        assert(spec_apply_lines(ls, st, sc) == spec_apply_lines(ls.drop_first(), r1.0, r1.1));
    }
}

/// A checker program, judging a solution's output against the expected
/// answer.
#[derive(Debug, Clone)]
pub struct Checker {
    pub program: crate::program::Executable,
}

impl Checker {
    /// Wraps a compiled program.
    pub fn from_executable(program: crate::program::Executable) -> (r: Checker)
        ensures
            r.program == program,
    {
        Checker { program }
    }

    /// Builds the sandbox command that runs this checker: the language's
    /// run command line, the fixed file names `inf.txt ouf.txt ans.txt`,
    /// then `args`; input, output and answer files materialised under
    /// those names beside the executable and extra files; standard error
    /// exported.
    pub fn check_request(
        &self,
        args: &Vec<String>,
        input: crate::sandbox::file::FileHandle,
        output: crate::sandbox::file::FileHandle,
        answer: crate::sandbox::file::FileHandle,
        copy_in: Vec<(String, crate::sandbox::file::FileHandle)>,
        judge: &crate::etc::JudgeCfg,
    ) -> (r: crate::sandbox::request::Cmd)
        ensures
            r.args.deep_view() == self.program.lang.spec_cfg().run_cmd@.map_values(
                |s: String| s@,
            ) + seq!["inf.txt"@, "ouf.txt"@, "ans.txt"@] + args@.map_values(|s: String| s@),
            r.copy_in@.len() == copy_in@.len() + 4,
            forall|k: int|
                0 <= k < copy_in@.len() ==> #[trigger] r.copy_in@[k].0@ == copy_in@[k].0@
                    && r.copy_in@[k].1.spec_id() == copy_in@[k].1.spec_id(),
            r.copy_in@[copy_in@.len() as int].0@ == self.program.lang.spec_cfg().exec_file@,
            r.copy_in@[copy_in@.len() as int].1.spec_id() == self.program.file.spec_id(),
            r.copy_in@[copy_in@.len() as int + 1].0@ == "inf.txt"@,
            r.copy_in@[copy_in@.len() as int + 1].1.spec_id() == input.spec_id(),
            r.copy_in@[copy_in@.len() as int + 2].0@ == "ouf.txt"@,
            r.copy_in@[copy_in@.len() as int + 2].1.spec_id() == output.spec_id(),
            r.copy_in@[copy_in@.len() as int + 3].0@ == "ans.txt"@,
            r.copy_in@[copy_in@.len() as int + 3].1.spec_id() == answer.spec_id(),
            r.copy_out.deep_view() == seq!["stderr"@],
            r.time_limit_ns == judge.time_limit_ns,
            r.memory_limit == judge.memory_limit,
    {
        let mut cmd = crate::sandbox::request::Cmd::with_defaults(judge);
        let mut file_args: Vec<String> = Vec::new();
        file_args.push(String::from_str("inf.txt"));
        file_args.push(String::from_str("ouf.txt"));
        file_args.push(String::from_str("ans.txt"));
        let head = crate::program::concat_args(self.program.lang.run_cmd(), &file_args);
        let full = crate::program::concat_args(&head, args);
        proof {
            let rc = self.program.lang.spec_cfg().run_cmd@;
            let rcv = rc.map_values(|s: String| s@);
            let av = args@.map_values(|s: String| s@);
            assert(file_args@.map_values(|s: String| s@) =~= seq![
                "inf.txt"@,
                "ouf.txt"@,
                "ans.txt"@,
            ]) by {
                assert(file_args@[0]@ == "inf.txt"@);
                assert(file_args@[1]@ == "ouf.txt"@);
                assert(file_args@[2]@ == "ans.txt"@);
            }
            assert(head@.map_values(|s: String| s@) =~= head.deep_view());
            assert(full.deep_view() =~= rcv + seq!["inf.txt"@, "ouf.txt"@, "ans.txt"@] + av);
        }
        cmd.args = full;
        let mut files = copy_in;
        files.push(
            (String::from_str(self.program.lang.exec_file()), self.program.file.share()),
        );
        files.push((String::from_str("inf.txt"), input));
        files.push((String::from_str("ouf.txt"), output));
        files.push((String::from_str("ans.txt"), answer));
        cmd.copy_in = files;
        let mut outs: Vec<String> = Vec::new();
        outs.push(String::from_str("stderr"));
        cmd.copy_out = outs;
        proof {
            assert(cmd.copy_out.deep_view() =~= seq!["stderr"@]);
        }
        cmd
    }
}

/// Reads a check response: the parsed verdict of the checker's standard
/// error when the checker exited on its own (accepted or with a nonzero
/// exit code, as testlib reports verdicts); any other result is a runtime
/// error carrying it.
pub fn check_result(
    res: &crate::sandbox::response::ResponseResult,
    stderr: &[u8],
) -> (r: Result<Output, crate::record::RuntimeError>)
    ensures
        ({
            let ok = res.result.status == crate::sandbox::response::Status::Accepted
                || res.result.status == crate::sandbox::response::Status::NonZeroExitStatus;
            match r {
                Ok(out) => {
                    &&& ok
                    &&& out.status == spec_parse_output(stderr@).0
                    &&& out.score as int == spec_parse_output(stderr@).1
                    &&& out.message@ == spec_parse_output(stderr@).2
                    &&& out.wf()
                },
                Err(e) => !ok && e.result == res.result,
            }
        }),
{
    match res.result.status {
        crate::sandbox::response::Status::Accepted => Ok(Output::parse(stderr)),
        crate::sandbox::response::Status::NonZeroExitStatus => Ok(Output::parse(stderr)),
        _ => Err(crate::record::RuntimeError { result: res.result }),
    }
}

/// The status a line's override sets, if any: the line reads `status(name)`
/// and the name is known.
pub open spec fn line_sets_status(l: Seq<u8>) -> Option<Status> {
    match spec_line_override(l) {
        Some(ov) => if ov.0 {
            Status::spec_parse_name(ov.1)
        } else {
            None
        },
        None => None,
    }
}

/// The score a line's override sets, if any: the line reads `score(x)` and
/// `x` is a decimal number.
pub open spec fn line_sets_score(l: Seq<u8>) -> Option<int> {
    match spec_line_override(l) {
        Some(ov) => if !ov.0 {
            spec_parse_score(ov.1)
        } else {
            None
        },
        None => None,
    }
}

proof fn lemma_apply_line_effect(l: Seq<u8>, st: Status, sc: int)
    ensures
        spec_apply_line(l, st, sc).0 == match line_sets_status(l) {
            Some(x) => x,
            None => st,
        },
        spec_apply_line(l, st, sc).1 == match line_sets_score(l) {
            Some(v) => v,
            None => sc,
        },
{
}

proof fn lemma_apply_lines_keep_status(ls: Seq<Seq<u8>>, st: Status, sc: int)
    requires
        forall|j: int| 0 <= j < ls.len() ==> line_sets_status(#[trigger] ls[j]) is None,
    ensures
        spec_apply_lines(ls, st, sc).0 == st,
    decreases ls.len(),
{
    if ls.len() > 0 {
        let r1 = spec_apply_line(ls[0], st, sc);
        lemma_apply_line_effect(ls[0], st, sc);
        assert(forall|j: int|
            0 <= j < ls.drop_first().len() ==> line_sets_status(
                #[trigger] ls.drop_first()[j],
            ) is None);
        lemma_apply_lines_keep_status(ls.drop_first(), r1.0, r1.1);
    }
}

proof fn lemma_apply_lines_keep_score(ls: Seq<Seq<u8>>, st: Status, sc: int)
    requires
        forall|j: int| 0 <= j < ls.len() ==> line_sets_score(#[trigger] ls[j]) is None,
    ensures
        spec_apply_lines(ls, st, sc).1 == sc,
    decreases ls.len(),
{
    if ls.len() > 0 {
        let r1 = spec_apply_line(ls[0], st, sc);
        lemma_apply_line_effect(ls[0], st, sc);
        assert(forall|j: int|
            0 <= j < ls.drop_first().len() ==> line_sets_score(
                #[trigger] ls.drop_first()[j],
            ) is None);
        lemma_apply_lines_keep_score(ls.drop_first(), r1.0, r1.1);
    }
}

proof fn lemma_apply_lines_last_status(ls: Seq<Seq<u8>>, st: Status, sc: int, k: int)
    requires
        0 <= k < ls.len(),
        line_sets_status(ls[k]) is Some,
        forall|j: int| k < j < ls.len() ==> line_sets_status(#[trigger] ls[j]) is None,
    ensures
        spec_apply_lines(ls, st, sc).0 == line_sets_status(ls[k]).unwrap(),
    decreases ls.len(),
{
    let r1 = spec_apply_line(ls[0], st, sc);
    if k == 0 {
        lemma_apply_line_effect(ls[0], st, sc);
        assert(forall|j: int|
            0 <= j < ls.drop_first().len() ==> line_sets_status(
                #[trigger] ls.drop_first()[j],
            ) is None);
        lemma_apply_lines_keep_status(ls.drop_first(), r1.0, r1.1);
    } else {
        assert(ls.drop_first()[k - 1] == ls[k]);
        assert(forall|j: int|
            k - 1 < j < ls.drop_first().len() ==> line_sets_status(
                #[trigger] ls.drop_first()[j],
            ) is None);
        lemma_apply_lines_last_status(ls.drop_first(), r1.0, r1.1, k - 1);
    }
}

proof fn lemma_apply_lines_last_score(ls: Seq<Seq<u8>>, st: Status, sc: int, k: int)
    requires
        0 <= k < ls.len(),
        line_sets_score(ls[k]) is Some,
        forall|j: int| k < j < ls.len() ==> line_sets_score(#[trigger] ls[j]) is None,
    ensures
        spec_apply_lines(ls, st, sc).1 == line_sets_score(ls[k]).unwrap(),
    decreases ls.len(),
{
    let r1 = spec_apply_line(ls[0], st, sc);
    if k == 0 {
        lemma_apply_line_effect(ls[0], st, sc);
        assert(forall|j: int|
            0 <= j < ls.drop_first().len() ==> line_sets_score(
                #[trigger] ls.drop_first()[j],
            ) is None);
        lemma_apply_lines_keep_score(ls.drop_first(), r1.0, r1.1);
    } else {
        assert(ls.drop_first()[k - 1] == ls[k]);
        assert(forall|j: int|
            k - 1 < j < ls.drop_first().len() ==> line_sets_score(
                #[trigger] ls.drop_first()[j],
            ) is None);
        lemma_apply_lines_last_score(ls.drop_first(), r1.0, r1.1, k - 1);
    }
}

proof fn lemma_apply_lines_bounds(ls: Seq<Seq<u8>>, st: Status, sc: int)
    requires
        0 <= sc <= SCORE_UNIT as int,
    ensures
        0 <= spec_apply_lines(ls, st, sc).1 <= SCORE_UNIT as int,
    decreases ls.len(),
{
    if ls.len() > 0 {
        let r1 = spec_apply_line(ls[0], st, sc);
        lemma_apply_line_effect(ls[0], st, sc);
        match line_sets_score(ls[0]) {
            Some(v) => {
                match spec_line_override(ls[0]) {
                    Some(ov) => {
                        crate::score::lemma_parse_score_bounds(ov.1);
                    },
                    None => {},
                }
            },
            None => {},
        }
        lemma_apply_lines_bounds(ls.drop_first(), r1.0, r1.1);
    }
}

/// Parser totality: every byte string parses to a known status, a score
/// within `[0, 1]`, and a message of at most [`MESSAGE_LIMIT`] bytes of
/// valid UTF-8.
pub proof fn lemma_parse_output_total(s: Seq<u8>)
    ensures
        0 <= spec_parse_output(s).1 <= SCORE_UNIT as int,
        valid_utf8(spec_parse_output(s).2),
        spec_parse_output(s).2.len() <= MESSAGE_LIMIT,
{
    let t = spec_sanitize(s);
    let base = spec_base_verdict(t);
    assert(0 <= base.1 <= SCORE_UNIT as int) by {
        match spec_pc_rest(t) {
            Some(rest) => {
                crate::score::lemma_parse_score_bounds(
                    spec_decimal_token(spec_after_paren(rest)),
                );
            },
            None => {},
        }
    }
    lemma_apply_lines_bounds(spec_lines(t), base.0, base.1);
    crate::encoding::lemma_sanitize_valid(s);
    crate::encoding::lemma_limit_valid(t);
    crate::encoding::lemma_limit_len(t);
}

/// Override precedence for the status: when some line of the repaired
/// output carries a `status(...)` override with a known name and `k` is the
/// last such line, the parsed status is the one line `k` names.
pub proof fn lemma_status_override_wins(s: Seq<u8>, k: int)
    requires
        0 <= k < spec_lines(spec_sanitize(s)).len(),
        line_sets_status(spec_lines(spec_sanitize(s))[k]) is Some,
        forall|j: int|
            k < j < spec_lines(spec_sanitize(s)).len() ==> line_sets_status(
                #[trigger] spec_lines(spec_sanitize(s))[j],
            ) is None,
    ensures
        spec_parse_output(s).0 == line_sets_status(spec_lines(spec_sanitize(s))[k]).unwrap(),
{
    let t = spec_sanitize(s);
    let base = spec_base_verdict(t);
    lemma_apply_lines_last_status(spec_lines(t), base.0, base.1, k);
}

/// Override precedence for the score: when some line of the repaired output
/// carries a well-formed `score(...)` override and `k` is the last such
/// line, the parsed score is the clamped value line `k` gives.
pub proof fn lemma_score_override_wins(s: Seq<u8>, k: int)
    requires
        0 <= k < spec_lines(spec_sanitize(s)).len(),
        line_sets_score(spec_lines(spec_sanitize(s))[k]) is Some,
        forall|j: int|
            k < j < spec_lines(spec_sanitize(s)).len() ==> line_sets_score(
                #[trigger] spec_lines(spec_sanitize(s))[j],
            ) is None,
    ensures
        spec_parse_output(s).1 == line_sets_score(spec_lines(spec_sanitize(s))[k]).unwrap(),
{
    let t = spec_sanitize(s);
    let base = spec_base_verdict(t);
    lemma_apply_lines_last_score(spec_lines(t), base.0, base.1, k);
}

/// Computes the base verdict of the repaired output.
fn base_verdict(s: &[u8]) -> (r: (Status, u64))
    ensures
        r.0 == spec_base_verdict(s@).0,
        r.1 as int == spec_base_verdict(s@).1,
        r.1 <= SCORE_UNIT,
{
    if starts_with(s, "ok".as_bytes()) {
        return (Status::Accepted, SCORE_UNIT);
    }
    if starts_with(s, "wrong answer".as_bytes()) {
        return (Status::WrongAnswer, 0);
    }
    if starts_with(s, "FAIL".as_bytes()) {
        return (Status::SystemError, 0);
    }
    if starts_with(s, "wrong output format".as_bytes()) {
        return (Status::PresentationError, 0);
    }
    let plen: usize;
    if starts_with(s, "partially correct ".as_bytes()) {
        plen = "partially correct ".as_bytes().len();
    } else if starts_with(s, "points ".as_bytes()) {
        plen = "points ".as_bytes().len();
    } else {
        return (Status::SystemError, 0);
    }
    let ghost rest = spec_pc_rest(s@).unwrap();
    proof {
        assert(rest == s@.skip(plen as int));
    }
    let mut pos = plen;
    if pos < s.len() && s[pos] == 0x28 {
        pos += 1;
    }
    let ghost ap = spec_after_paren(rest);
    proof {
        assert(ap =~= s@.skip(pos as int));
    }
    let d1 = count_digits(s, pos);
    proof {
        assert(s@.subrange(pos as int, s@.len() as int) =~= ap);
    }
    let tok_end: usize;
    if pos + d1 < s.len() && s[pos + d1] == 0x2e {
        let d2 = count_digits(s, pos + d1 + 1);
        proof {
            assert(s@.subrange(pos + d1 + 1 as int, s@.len() as int) =~= ap.skip(d1 + 1));
        }
        tok_end = pos + d1 + 1 + d2;
    } else {
        tok_end = pos + d1;
    }
    let tok = copy_range(s, pos, tok_end);
    proof {
        assert(tok@ =~= spec_decimal_token(ap));
    }
    match parse_score(tok.as_slice()) {
        Some(v) => {
            if v >= SCORE_UNIT {
                (Status::Accepted, SCORE_UNIT)
            } else if v == 0 {
                (Status::WrongAnswer, 0)
            } else {
                (Status::PartiallyCorrect, v)
            }
        },
        None => (Status::SystemError, 0),
    }
}

/// Applies one line's override, if it has one.
fn apply_line(l: &[u8], st: Status, sc: u64) -> (r: (Status, u64))
    requires
        sc <= SCORE_UNIT,
    ensures
        r.0 == spec_apply_line(l@, st, sc as int).0,
        r.1 as int == spec_apply_line(l@, st, sc as int).1,
        r.1 <= SCORE_UNIT,
{
    let n = l.len();
    let b = count_blank(l, 0);
    proof {
        assert(l@.subrange(0, l@.len() as int) =~= l@);
        assert(spec_count_blank(l@) == b);
    }
    let ghost rsk = l@.skip(b as int);
    let key: bool;
    let klen: usize;
    if starts_with_at(l, "status(".as_bytes(), b) {
        key = true;
        klen = "status(".as_bytes().len();
    } else if starts_with_at(l, "score(".as_bytes(), b) {
        key = false;
        klen = "score(".as_bytes().len();
    } else {
        return (st, sc);
    }
    proof {
        assert(b + klen <= n) by {
            if key {
                assert("status(".spec_bytes().is_prefix_of(rsk));
                assert(klen <= rsk.len());
            } else {
                assert("score(".spec_bytes().is_prefix_of(rsk));
                assert(klen <= rsk.len());
            }
        }
    }
    let start = b + klen;
    let ghost x = rsk.skip(klen as int);
    let w = count_word_dot(l, start);
    proof {
        assert(x =~= l@.subrange(start as int, l@.len() as int));
        assert(spec_count_word_dot(x) == w);
    }
    if w == 0 || start + w >= l.len() || l[start + w] != 0x29 {
        proof {
            if start + w < l@.len() {
                assert(x[w as int] == l@[start + w]);
            }
            assert(spec_paren_token(x) is None);
        }
        return (st, sc);
    }
    let tok = copy_range(l, start, start + w);
    proof {
        assert(x[w as int] == l@[start + w]);
        assert(spec_paren_token(x) == Some(tok@)) by {
            assert(tok@ =~= x.subrange(0, w as int));
        }
    }
    if key {
        match Status::parse_name(tok.as_slice()) {
            Some(s2) => (s2, sc),
            None => (st, sc),
        }
    } else {
        match parse_score(tok.as_slice()) {
            Some(v) => (st, v),
            None => (st, sc),
        }
    }
}

} // verus!

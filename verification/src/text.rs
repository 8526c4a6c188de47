//! Byte-string helpers shared by the output parsers: character classes,
//! equality and prefix tests, whitespace trimming and line splitting.
//!
//! All checker and validator grammars in this crate are ASCII-framed, so the
//! parsers work directly on byte strings; these helpers give them exact
//! sequence-level contracts.

use vstd::prelude::*;
use vstd::string::StringSliceAdditionalSpecFns;

verus! {

/// Equality of two string slices, by their characters.
pub fn eq_str(a: &str, b: &str) -> (r: bool)
    ensures
        r == (a@ == b@),
{
    let r = eq_bytes(a.as_bytes(), b.as_bytes());
    proof {
        if a.spec_bytes() == b.spec_bytes() {
            vstd::utf8::encode_utf8_decode_utf8(a@);
            vstd::utf8::encode_utf8_decode_utf8(b@);
        }
    }
    r
}

/// True when `b` is an ASCII decimal digit.
pub open spec fn spec_is_digit(b: u8) -> bool {
    0x30 <= b <= 0x39
}

/// True when `b` is ASCII whitespace: space, tab, line feed, vertical tab,
/// form feed or carriage return.
pub open spec fn spec_is_space(b: u8) -> bool {
    b == 0x20 || b == 0x09 || b == 0x0a || b == 0x0b || b == 0x0c || b == 0x0d
}

/// True when `b` is a word byte: an ASCII letter, digit or underscore.
pub open spec fn spec_is_word(b: u8) -> bool {
    spec_is_digit(b) || (0x41 <= b <= 0x5a) || (0x61 <= b <= 0x7a) || b == 0x5f
}

pub fn is_digit(b: u8) -> (r: bool)
    ensures
        r == spec_is_digit(b),
{
    0x30 <= b && b <= 0x39
}

pub fn is_space(b: u8) -> (r: bool)
    ensures
        r == spec_is_space(b),
{
    b == 0x20 || b == 0x09 || b == 0x0a || b == 0x0b || b == 0x0c || b == 0x0d
}

pub fn is_word(b: u8) -> (r: bool)
    ensures
        r == spec_is_word(b),
{
    is_digit(b) || (0x41 <= b && b <= 0x5a) || (0x61 <= b && b <= 0x7a) || b == 0x5f
}

/// Byte-for-byte equality of two slices.
pub fn eq_bytes(a: &[u8], b: &[u8]) -> (r: bool)
    ensures
        r == (a@ == b@),
{
    if a.len() != b.len() {
        assert(a@ != b@) by {
            assert(a@.len() != b@.len());
        }
        return false;
    }
    let n = a.len();
    let mut i: usize = 0;
    while i < n
        invariant
            n == a@.len() == b@.len(),
            0 <= i <= n,
            forall|j: int| 0 <= j < i ==> a@[j] == b@[j],
        decreases n - i,
    {
        if a[i] != b[i] {
            return false;
        }
        i += 1;
    }
    assert(a@ =~= b@);
    true
}

/// True when `p` is a prefix of `s`.
pub fn starts_with(s: &[u8], p: &[u8]) -> (r: bool)
    ensures
        r == p@.is_prefix_of(s@),
{
    if p.len() > s.len() {
        assert(!p@.is_prefix_of(s@)) by {
            assert(p@.len() > s@.len());
        }
        return false;
    }
    let n = p.len();
    let mut i: usize = 0;
    while i < n
        invariant
            n == p@.len() <= s@.len(),
            0 <= i <= n,
            forall|j: int| 0 <= j < i ==> s@[j] == p@[j],
        decreases n - i,
    {
        if s[i] != p[i] {
            assert(!p@.is_prefix_of(s@));
            return false;
        }
        i += 1;
    }
    assert(p@ =~= s@.subrange(0, p@.len() as int));
    true
}

/// Appends all of `src` to `dst`.
pub fn append_bytes(dst: &mut Vec<u8>, src: &[u8])
    ensures
        final(dst)@ == old(dst)@ + src@,
{
    let ghost prev = dst@;
    let n = src.len();
    let mut i: usize = 0;
    while i < n
        invariant
            0 <= i <= n == src@.len(),
            dst@ =~= prev + src@.subrange(0, i as int),
        decreases n - i,
    {
        dst.push(src[i]);
        assert(dst@ =~= prev + src@.subrange(0, i + 1 as int));
        i += 1;
    }
    assert(dst@ =~= prev + src@);
}

/// Copies the bytes of `s` in positions `a..b` into a fresh vector.
pub fn copy_range(s: &[u8], a: usize, b: usize) -> (r: Vec<u8>)
    requires
        a <= b <= s@.len(),
    ensures
        r@ == s@.subrange(a as int, b as int),
{
    let mut r: Vec<u8> = Vec::new();
    let mut i: usize = a;
    while i < b
        invariant
            a <= i <= b <= s@.len(),
            r@ =~= s@.subrange(a as int, i as int),
        decreases b - i,
    {
        r.push(s[i]);
        assert(r@ =~= s@.subrange(a as int, i + 1 as int));
        i += 1;
    }
    r
}

/// Number of leading ASCII digits of `s`.
pub open spec fn spec_count_digits(s: Seq<u8>) -> int
    decreases s.len(),
{
    if s.len() == 0 || !spec_is_digit(s[0]) {
        0
    } else {
        1 + spec_count_digits(s.drop_first())
    }
}

proof fn lemma_count_digits(s: Seq<u8>, i: int)
    requires
        0 <= i <= s.len(),
        forall|j: int| 0 <= j < i ==> spec_is_digit(s[j]),
        i < s.len() ==> !spec_is_digit(s[i]),
    ensures
        spec_count_digits(s) == i,
    decreases i,
{
    if i == 0 {
    } else {
        assert(spec_is_digit(s[0]));
        lemma_count_digits(s.drop_first(), i - 1);
    }
}

/// Counts the ASCII digits of `s` starting at `from`.
pub fn count_digits(s: &[u8], from: usize) -> (r: usize)
    requires
        from <= s@.len(),
    ensures
        from + r <= s@.len(),
        r == spec_count_digits(s@.subrange(from as int, s@.len() as int)),
{
    let n = s.len();
    let mut i: usize = from;
    while i < n && is_digit(s[i])
        invariant
            from <= i <= n == s@.len(),
            forall|j: int| from <= j < i ==> spec_is_digit(s@[j]),
        decreases n - i,
    {
        i += 1;
    }
    proof {
        let t = s@.subrange(from as int, s@.len() as int);
        assert(forall|j: int| 0 <= j < i - from ==> spec_is_digit(#[trigger] t[j]));
        if i < n {
            assert(!spec_is_digit(t[i - from]));
        }
        lemma_count_digits(t, i - from);
    }
    i - from
}

/// Number of leading word bytes of `s`.
pub open spec fn spec_count_word(s: Seq<u8>) -> int
    decreases s.len(),
{
    if s.len() == 0 || !spec_is_word(s[0]) {
        0
    } else {
        1 + spec_count_word(s.drop_first())
    }
}

proof fn lemma_count_word(s: Seq<u8>, i: int)
    requires
        0 <= i <= s.len(),
        forall|j: int| 0 <= j < i ==> spec_is_word(s[j]),
        i < s.len() ==> !spec_is_word(s[i]),
    ensures
        spec_count_word(s) == i,
    decreases i,
{
    if i == 0 {
    } else {
        assert(spec_is_word(s[0]));
        lemma_count_word(s.drop_first(), i - 1);
    }
}

/// Counts the word bytes of `s` starting at `from`.
pub fn count_word(s: &[u8], from: usize) -> (r: usize)
    requires
        from <= s@.len(),
    ensures
        from + r <= s@.len(),
        r == spec_count_word(s@.subrange(from as int, s@.len() as int)),
{
    let n = s.len();
    let mut i: usize = from;
    while i < n && is_word(s[i])
        invariant
            from <= i <= n == s@.len(),
            forall|j: int| from <= j < i ==> spec_is_word(s@[j]),
        decreases n - i,
    {
        i += 1;
    }
    proof {
        let t = s@.subrange(from as int, s@.len() as int);
        assert(forall|j: int| 0 <= j < i - from ==> spec_is_word(#[trigger] t[j]));
        if i < n {
            assert(!spec_is_word(t[i - from]));
        }
        lemma_count_word(t, i - from);
    }
    i - from
}

/// True when `p` is a prefix of `s` at position `at`.
pub fn starts_with_at(s: &[u8], p: &[u8], at: usize) -> (r: bool)
    requires
        at <= s@.len(),
    ensures
        r == p@.is_prefix_of(s@.skip(at as int)),
{
    let ghost t = s@.skip(at as int);
    if p.len() > s.len() - at {
        assert(!p@.is_prefix_of(t)) by {
            assert(p@.len() > t.len());
        }
        return false;
    }
    let n = p.len();
    let mut i: usize = 0;
    while i < n
        invariant
            at + n <= s@.len() <= usize::MAX,
            n == p@.len(),
            t == s@.skip(at as int),
            0 <= i <= n,
            forall|j: int| 0 <= j < i ==> s@[at + j] == p@[j],
        decreases n - i,
    {
        if s[at + i] != p[i] {
            assert(t[i as int] != p@[i as int]);
            assert(!p@.is_prefix_of(t));
            return false;
        }
        i += 1;
    }
    assert(p@ =~= t.subrange(0, p@.len() as int));
    true
}

/// True when `p` is a suffix of `s`.
pub fn ends_with(s: &[u8], p: &[u8]) -> (r: bool)
    ensures
        r == p@.is_suffix_of(s@),
{
    if p.len() > s.len() {
        assert(!p@.is_suffix_of(s@)) by {
            assert(p@.len() > s@.len());
        }
        return false;
    }
    let at = s.len() - p.len();
    let n = p.len();
    let mut i: usize = 0;
    while i < n
        invariant
            at + n == s@.len() <= usize::MAX,
            n == p@.len(),
            0 <= i <= n,
            forall|j: int| 0 <= j < i ==> s@[at + j] == p@[j],
        decreases n - i,
    {
        if s[at + i] != p[i] {
            assert(s@.subrange(at as int, s@.len() as int)[i as int] != p@[i as int]);
            assert(!p@.is_suffix_of(s@));
            return false;
        }
        i += 1;
    }
    assert(p@ =~= s@.subrange(s@.len() - p@.len(), s@.len() as int));
    true
}

/// True when `b` is a word byte or a full stop.
pub open spec fn spec_is_word_dot(b: u8) -> bool {
    spec_is_word(b) || b == 0x2e
}

/// Number of leading word-or-dot bytes of `s`.
pub open spec fn spec_count_word_dot(s: Seq<u8>) -> int
    decreases s.len(),
{
    if s.len() == 0 || !spec_is_word_dot(s[0]) {
        0
    } else {
        1 + spec_count_word_dot(s.drop_first())
    }
}

proof fn lemma_count_word_dot(s: Seq<u8>, i: int)
    requires
        0 <= i <= s.len(),
        forall|j: int| 0 <= j < i ==> spec_is_word_dot(s[j]),
        i < s.len() ==> !spec_is_word_dot(s[i]),
    ensures
        spec_count_word_dot(s) == i,
    decreases i,
{
    if i == 0 {
    } else {
        assert(spec_is_word_dot(s[0]));
        lemma_count_word_dot(s.drop_first(), i - 1);
    }
}

/// Counts the word-or-dot bytes of `s` starting at `from`.
pub fn count_word_dot(s: &[u8], from: usize) -> (r: usize)
    requires
        from <= s@.len(),
    ensures
        from + r <= s@.len(),
        r == spec_count_word_dot(s@.subrange(from as int, s@.len() as int)),
{
    let n = s.len();
    let mut i: usize = from;
    while i < n && (is_word(s[i]) || s[i] == 0x2e)
        invariant
            from <= i <= n == s@.len(),
            forall|j: int| from <= j < i ==> spec_is_word_dot(s@[j]),
        decreases n - i,
    {
        i += 1;
    }
    proof {
        let t = s@.subrange(from as int, s@.len() as int);
        assert(forall|j: int| 0 <= j < i - from ==> spec_is_word_dot(#[trigger] t[j]));
        if i < n {
            assert(!spec_is_word_dot(t[i - from]));
        }
        lemma_count_word_dot(t, i - from);
    }
    i - from
}

/// Number of leading space-or-tab bytes of `s`.
pub open spec fn spec_count_blank(s: Seq<u8>) -> int
    decreases s.len(),
{
    if s.len() == 0 || !(s[0] == 0x20 || s[0] == 0x09) {
        0
    } else {
        1 + spec_count_blank(s.drop_first())
    }
}

proof fn lemma_count_blank(s: Seq<u8>, i: int)
    requires
        0 <= i <= s.len(),
        forall|j: int| 0 <= j < i ==> (s[j] == 0x20 || s[j] == 0x09),
        i < s.len() ==> !(s[i] == 0x20 || s[i] == 0x09),
    ensures
        spec_count_blank(s) == i,
    decreases i,
{
    if i == 0 {
    } else {
        lemma_count_blank(s.drop_first(), i - 1);
    }
}

/// Counts the space and tab bytes of `s` starting at `from`.
pub fn count_blank(s: &[u8], from: usize) -> (r: usize)
    requires
        from <= s@.len(),
    ensures
        from + r <= s@.len(),
        r == spec_count_blank(s@.subrange(from as int, s@.len() as int)),
{
    let n = s.len();
    let mut i: usize = from;
    while i < n && (s[i] == 0x20 || s[i] == 0x09)
        invariant
            from <= i <= n == s@.len(),
            forall|j: int| from <= j < i ==> (s@[j] == 0x20 || s@[j] == 0x09),
        decreases n - i,
    {
        i += 1;
    }
    proof {
        let t = s@.subrange(from as int, s@.len() as int);
        assert(forall|j: int| 0 <= j < i - from ==> (#[trigger] t[j] == 0x20 || t[j] == 0x09));
        if i < n {
            assert(!(t[i - from] == 0x20 || t[i - from] == 0x09));
        }
        lemma_count_blank(t, i - from);
    }
    i - from
}

/// Index of the first byte of `s` that is not ASCII whitespace (or `s.len()`
/// when every byte is whitespace).
pub open spec fn spec_trim_start(s: Seq<u8>) -> int
    decreases s.len(),
{
    if s.len() == 0 {
        0
    } else if spec_is_space(s[0]) {
        1 + spec_trim_start(s.drop_first())
    } else {
        0
    }
}

/// One past the index of the last byte of `s` that is not ASCII whitespace
/// (or `0` when every byte is whitespace).
pub open spec fn spec_trim_end(s: Seq<u8>) -> int
    decreases s.len(),
{
    if s.len() == 0 {
        0
    } else if spec_is_space(s.last()) {
        spec_trim_end(s.drop_last())
    } else {
        s.len() as int
    }
}

/// `s` with ASCII whitespace removed from both ends.
pub open spec fn spec_trim(s: Seq<u8>) -> Seq<u8> {
    let a = spec_trim_start(s);
    let b = spec_trim_end(s);
    if a <= b {
        s.subrange(a, b)
    } else {
        Seq::empty()
    }
}

pub proof fn lemma_trim_start_bounds(s: Seq<u8>)
    ensures
        0 <= spec_trim_start(s) <= s.len(),
        forall|j: int| 0 <= j < spec_trim_start(s) ==> spec_is_space(s[j]),
        spec_trim_start(s) < s.len() ==> !spec_is_space(s[spec_trim_start(s)]),
    decreases s.len(),
{
    if s.len() > 0 && spec_is_space(s[0]) {
        lemma_trim_start_bounds(s.drop_first());
        assert forall|j: int| 0 <= j < spec_trim_start(s) implies spec_is_space(s[j]) by {
            if j > 0 {
                assert(s[j] == s.drop_first()[j - 1]);
            }
        }
    }
}

pub proof fn lemma_trim_end_bounds(s: Seq<u8>)
    ensures
        0 <= spec_trim_end(s) <= s.len(),
        forall|j: int| spec_trim_end(s) <= j < s.len() ==> spec_is_space(s[j]),
        spec_trim_end(s) > 0 ==> !spec_is_space(s[spec_trim_end(s) - 1]),
    decreases s.len(),
{
    if s.len() > 0 && spec_is_space(s.last()) {
        lemma_trim_end_bounds(s.drop_last());
        assert forall|j: int| spec_trim_end(s) <= j < s.len() implies spec_is_space(s[j]) by {
            if j < s.len() - 1 {
                assert(s[j] == s.drop_last()[j]);
            }
        }
    }
}

proof fn lemma_trim_start_step(s: Seq<u8>, i: int)
    requires
        0 <= i <= s.len(),
        forall|j: int| 0 <= j < i ==> spec_is_space(s[j]),
    ensures
        i < s.len() && !spec_is_space(s[i]) ==> spec_trim_start(s) == i,
        i == s.len() ==> spec_trim_start(s) == i,
    decreases i,
{
    lemma_trim_start_bounds(s);
    if i < s.len() && !spec_is_space(s[i]) {
        if spec_trim_start(s) < i {
            assert(spec_is_space(s[spec_trim_start(s)]));
        }
    }
}

proof fn lemma_trim_end_step(s: Seq<u8>, i: int)
    requires
        0 <= i <= s.len(),
        forall|j: int| i <= j < s.len() ==> spec_is_space(s[j]),
    ensures
        i > 0 && !spec_is_space(s[i - 1]) ==> spec_trim_end(s) == i,
        i == 0 ==> spec_trim_end(s) == i,
{
    lemma_trim_end_bounds(s);
    if i > 0 && !spec_is_space(s[i - 1]) {
        if spec_trim_end(s) < i {
            assert(spec_is_space(s[i - 1]));
        }
        if spec_trim_end(s) > i {
            assert(spec_is_space(s[spec_trim_end(s) - 1]));
        }
    }
}

/// Copy of `s` with ASCII whitespace removed from both ends.
pub fn trim(s: &[u8]) -> (r: Vec<u8>)
    ensures
        r@ == spec_trim(s@),
{
    let n = s.len();
    let mut a: usize = 0;
    while a < n && is_space(s[a])
        invariant
            0 <= a <= n == s@.len(),
            forall|j: int| 0 <= j < a ==> spec_is_space(s@[j]),
        decreases n - a,
    {
        a += 1;
    }
    proof {
        lemma_trim_start_step(s@, a as int);
        assert(spec_trim_start(s@) == a);
    }
    let mut b: usize = n;
    while b > a && is_space(s[b - 1])
        invariant
            a <= b <= n == s@.len(),
            forall|j: int| b <= j < n ==> spec_is_space(s@[j]),
            forall|j: int| 0 <= j < a ==> spec_is_space(s@[j]),
            a < n ==> !spec_is_space(s@[a as int]),
        decreases b,
    {
        b -= 1;
    }
    proof {
        if b == a {
            // every byte outside [a, a) is whitespace, so the trimmed span is empty
            if a == 0 {
                lemma_trim_end_step(s@, 0);
            } else {
                lemma_trim_end_bounds(s@);
                lemma_trim_start_bounds(s@);
                if spec_trim_end(s@) > a {
                    assert(spec_is_space(s@[spec_trim_end(s@) - 1]));
                }
            }
        } else {
            lemma_trim_end_step(s@, b as int);
        }
        assert(spec_trim_end(s@) <= b);
        assert(a <= spec_trim_end(s@) || spec_trim_end(s@) <= a);
    }
    let mut r: Vec<u8> = Vec::new();
    let mut i: usize = a;
    while i < b
        invariant
            a <= i <= b <= n == s@.len(),
            r@ =~= s@.subrange(a as int, i as int),
        decreases b - i,
    {
        r.push(s[i]);
        assert(r@ =~= s@.subrange(a as int, i + 1 as int));
        i += 1;
    }
    proof {
        if spec_trim_end(s@) >= a {
            assert(spec_trim(s@) == s@.subrange(a as int, spec_trim_end(s@)));
            assert(spec_trim_end(s@) == b);
        } else {
            assert(spec_trim(s@) == Seq::<u8>::empty());
            assert(b == a);
            assert(r@ =~= Seq::<u8>::empty());
        }
    }
    r
}

/// The lines of `s`, split on line-feed bytes; a trailing line feed yields a
/// final empty line.
pub open spec fn spec_lines(s: Seq<u8>) -> Seq<Seq<u8>>
    decreases s.len(),
{
    if !s.contains(0x0a) {
        seq![s]
    } else {
        let i = first_newline(s);
        if 0 <= i < s.len() {
            seq![s.subrange(0, i)] + spec_lines(s.subrange(i + 1, s.len() as int))
        } else {
            seq![s]
        }
    }
}

/// Index of the first line-feed byte of `s`.
pub open spec fn first_newline(s: Seq<u8>) -> int
    recommends
        s.contains(0x0a),
{
    s.index_of_first(0x0a).unwrap()
}

/// Splits `s` into its lines.
pub fn lines(s: &[u8]) -> (r: Vec<Vec<u8>>)
    ensures
        r.deep_view() == spec_lines(s@),
{
    let n = s.len();
    let mut r: Vec<Vec<u8>> = Vec::new();
    let mut cur: Vec<u8> = Vec::new();
    let mut start: usize = 0;
    let mut i: usize = 0;
    proof {
        assert(s@.subrange(0, s@.len() as int) =~= s@);
        assert(r.deep_view() + spec_lines(s@) =~= spec_lines(s@));
    }
    while i < n
        invariant
            0 <= start <= i <= n == s@.len(),
            cur@ =~= s@.subrange(start as int, i as int),
            forall|j: int| start <= j < i ==> s@[j] != 0x0a,
            spec_lines(s@) == r.deep_view() + spec_lines(
                s@.subrange(start as int, s@.len() as int),
            ),
        decreases n - i,
    {
        if s[i] == 0x0a {
            let ghost prev = r.deep_view();
            proof {
                let rest = s@.subrange(start as int, s@.len() as int);
                assert(rest[i - start] == 0x0a);
                assert(rest.contains(0x0a));
                lemma_first_newline(rest, (i - start) as int);
                assert(rest.subrange(0, (i - start) as int) =~= cur@);
                assert(rest.subrange((i - start) as int + 1, rest.len() as int) =~= s@.subrange(
                    i + 1 as int,
                    s@.len() as int,
                ));
                assert(spec_lines(rest) == seq![cur@] + spec_lines(
                    s@.subrange(i + 1 as int, s@.len() as int),
                ));
            }
            r.push(cur);
            proof {
                assert(r.deep_view() =~~= prev.push(cur@));
                assert(prev.push(cur@) + spec_lines(s@.subrange(i + 1 as int, s@.len() as int))
                    =~= prev + (seq![cur@] + spec_lines(
                    s@.subrange(i + 1 as int, s@.len() as int),
                )));
            }
            cur = Vec::new();
            start = i + 1;
        } else {
            cur.push(s[i]);
            assert(cur@ =~= s@.subrange(start as int, i + 1 as int));
        }
        i += 1;
    }
    let ghost prev = r.deep_view();
    proof {
        let rest = s@.subrange(start as int, s@.len() as int);
        assert(forall|j: int| 0 <= j < rest.len() ==> rest[j] != 0x0a);
        assert(!rest.contains(0x0a));
        assert(spec_lines(rest) == seq![rest]);
        assert(rest =~= cur@);
    }
    r.push(cur);
    proof {
        assert(r.deep_view() =~~= prev.push(cur@));
        assert(prev.push(cur@) =~= prev + seq![cur@]);
    }
    r
}

proof fn lemma_first_newline(s: Seq<u8>, i: int)
    requires
        0 <= i < s.len(),
        s[i] == 0x0a,
        forall|j: int| 0 <= j < i ==> s[j] != 0x0a,
    ensures
        first_newline(s) == i,
{
    assert(s.contains(0x0a));
    s.index_of_first_ensures(0x0a);
    let k = first_newline(s);
    if k < i {
        assert(s[k] != 0x0a);
    }
    if k > i {
        assert(s[i] != 0x0a);
    }
}

} // verus!
